//! Character-level string helpers shared by the parsers and renderers.

use vstd::prelude::*;
use vstd::string::*;

verus! {

broadcast use vstd::string::group_string_axioms;

/// Appends one character to a `String` (std `String::push`).
#[verifier::external_body]
pub(crate) fn push_char(s: &mut String, c: char)
    ensures
        final(s)@ == old(s)@.push(c),
{
    s.push(c);
}

/// Returns the characters of a string slice.
pub fn chars_of(s: &str) -> (v: Vec<char>)
    ensures
        v@ == s@,
{
    let n = s.unicode_len();
    let mut v: Vec<char> = Vec::new();
    let mut i: usize = 0;
    while i < n
        invariant
            n == s@.len(),
            i <= n,
            v@ == s@.subrange(0, i as int),
        decreases n - i,
    {
        let c = s.get_char(i);
        v.push(c);
        i = i + 1;
    }
    v
}

/// Builds a `String` from a character sequence.
pub fn string_of(v: &[char]) -> (s: String)
    ensures
        s@ == v@,
{
    let mut s = String::new();
    let mut i: usize = 0;
    while i < v.len()
        invariant
            i <= v.len(),
            s@ == v@.subrange(0, i as int),
        decreases v.len() - i,
    {
        push_char(&mut s, v[i]);
        i = i + 1;
    }
    s
}

/// Compares two character vectors for equality.
pub fn chars_eq(a: &[char], b: &[char]) -> (r: bool)
    ensures
        r == (a@ == b@),
{
    if a.len() != b.len() {
        return false;
    }
    let mut i: usize = 0;
    while i < a.len()
        invariant
            a.len() == b.len(),
            i <= a.len(),
            forall|j: int| 0 <= j < i ==> a@[j] == b@[j],
        decreases a.len() - i,
    {
        if a[i] != b[i] {
            return false;
        }
        i = i + 1;
    }
    assert(a@ =~= b@);
    true
}

/// Compares two string slices for equality of their characters.
pub fn str_eq(a: &str, b: &str) -> (r: bool)
    ensures
        r == (a@ == b@),
{
    let av = chars_of(a);
    let bv = chars_of(b);
    chars_eq(av.as_slice(), bv.as_slice())
}

/// The ASCII digit for a value below ten.
pub open spec fn digit_char(d: nat) -> char {
    if d == 0 {
        '0'
    } else if d == 1 {
        '1'
    } else if d == 2 {
        '2'
    } else if d == 3 {
        '3'
    } else if d == 4 {
        '4'
    } else if d == 5 {
        '5'
    } else if d == 6 {
        '6'
    } else if d == 7 {
        '7'
    } else if d == 8 {
        '8'
    } else {
        '9'
    }
}

/// The decimal rendering of a natural number, without leading zeros.
pub open spec fn decimal_chars(n: nat) -> Seq<char>
    decreases n,
{
    if n < 10 {
        seq![digit_char(n)]
    } else {
        decimal_chars(n / 10).push(digit_char(n % 10))
    }
}

fn digit_of(d: u64) -> (c: char)
    requires
        d < 10,
    ensures
        c == digit_char(d as nat),
{
    if d == 0 {
        '0'
    } else if d == 1 {
        '1'
    } else if d == 2 {
        '2'
    } else if d == 3 {
        '3'
    } else if d == 4 {
        '4'
    } else if d == 5 {
        '5'
    } else if d == 6 {
        '6'
    } else if d == 7 {
        '7'
    } else if d == 8 {
        '8'
    } else {
        '9'
    }
}

/// Appends the decimal rendering of `n`.
pub fn push_decimal(out: &mut String, n: u64)
    ensures
        final(out)@ == old(out)@ + decimal_chars(n as nat),
    decreases n,
{
    if n >= 10 {
        push_decimal(out, n / 10);
    }
    push_char(out, digit_of(n % 10));
    proof {
        assert(decimal_chars(n as nat) == if n < 10 {
            seq![digit_char(n as nat)]
        } else {
            decimal_chars((n / 10) as nat).push(digit_char((n % 10) as nat))
        });
    }
}

/// The decimal rendering of `n`.
pub fn decimal_string(n: u64) -> (s: String)
    ensures
        s@ == decimal_chars(n as nat),
{
    let mut s = String::new();
    push_decimal(&mut s, n);
    s
}

/// Whether every character of `s` is an ASCII digit.
pub open spec fn all_digits(s: Seq<char>) -> bool {
    forall|i: int| 0 <= i < s.len() ==> '0' <= #[trigger] s[i] <= '9'
}

/// The value of a digit character.
pub open spec fn digit_value(c: char) -> int {
    (c as int) - ('0' as int)
}

/// The value of a string of decimal digits (most significant first).
pub open spec fn decimal_value(s: Seq<char>) -> int
    decreases s.len(),
{
    if s.len() == 0 {
        0
    } else {
        decimal_value(s.drop_last()) * 10 + digit_value(s.last())
    }
}

/// What `str::parse::<u64>` gives: an optional `+`, then at least one ASCII digit, and a
/// value that fits in 64 bits.
pub open spec fn parse_u64_spec(s: Seq<char>) -> Option<u64> {
    let body = if s.len() > 0 && s[0] == '+' {
        s.drop_first()
    } else {
        s
    };
    if body.len() > 0 && all_digits(body) && decimal_value(body) <= u64::MAX {
        Some(decimal_value(body) as u64)
    } else {
        None
    }
}

/// A digit string's value is at least that of any of its prefixes.
pub proof fn lemma_decimal_value_prefix(s: Seq<char>, k: int)
    requires
        all_digits(s),
        0 <= k <= s.len(),
    ensures
        decimal_value(s.take(k)) <= decimal_value(s),
        0 <= decimal_value(s),
    decreases s.len(),
{
    if s.len() == 0 {
        assert(s.take(k) =~= s);
    } else if k == s.len() {
        assert(s.take(k) =~= s);
        lemma_decimal_value_prefix(s.drop_last(), 0);
    } else {
        lemma_decimal_value_prefix(s.drop_last(), k);
        assert(s.drop_last().take(k) =~= s.take(k));
        assert(all_digits(s.drop_last()));
        assert('0' <= s[s.len() - 1] <= '9');
    }
}

/// Parses an unsigned 64-bit decimal number as `str::parse::<u64>` does.
pub fn parse_u64(s: &str) -> (r: Option<u64>)
    ensures
        r == parse_u64_spec(s@),
{
    let v = chars_of(s);
    let n = v.len();
    let mut i: usize = 0;
    if n > 0 && v[0] == '+' {
        i = 1;
    }
    let start = i;
    let ghost body = if s@.len() > 0 && s@[0] == '+' {
        s@.drop_first()
    } else {
        s@
    };
    assert(body =~= s@.subrange(start as int, n as int));
    if start == n {
        return None;
    }
    let mut acc: u64 = 0;
    while i < n
        invariant
            v@ == s@,
            n == v.len(),
            start <= i <= n,
            body =~= s@.subrange(start as int, n as int),
            body == (if s@.len() > 0 && s@[0] == '+' {
                s@.drop_first()
            } else {
                s@
            }),
            body.len() > 0,
            all_digits(body.take(i - start)),
            acc == decimal_value(body.take(i - start)),
        decreases n - i,
    {
        let c = v[i];
        if !('0' <= c && c <= '9') {
            assert(body[i - start] == c);
            assert(!all_digits(body));
            return None;
        }
        let d: u64 = ((c as u32) - ('0' as u32)) as u64;
        let ghost k: int = i - start;
        assert(body.take(k + 1).drop_last() =~= body.take(k));
        assert(body.take(k + 1).last() == c);
        let next = match acc.checked_mul(10) {
            Some(m) => m.checked_add(d),
            None => None,
        };
        match next {
            Some(x) => {
                acc = x;
            },
            None => {
                proof {
                    assert(all_digits(body.take(k + 1)));
                    if all_digits(body) {
                        lemma_decimal_value_prefix(body, k + 1);
                    }
                }
                return None;
            },
        }
        i = i + 1;
    }
    assert(body.take(n - start) =~= body);
    Some(acc)
}

/// Concatenation of two string slices.
pub fn concat2(a: &str, b: &str) -> (s: String)
    ensures
        s@ == a@ + b@,
{
    let mut s = String::from_str(a);
    s.append(b);
    s
}

/// Concatenation of three string slices.
pub fn concat3(a: &str, b: &str, c: &str) -> (s: String)
    ensures
        s@ == a@ + b@ + c@,
{
    let mut s = String::from_str(a);
    s.append(b);
    s.append(c);
    s
}

// ---------------------------------------------------------------------------
// Whitespace and case
// ---------------------------------------------------------------------------

/// The Unicode `White_Space` characters, as `char::is_whitespace` classifies them.
pub open spec fn is_space(c: char) -> bool {
    let u = c as u32;
    (9 <= u <= 13) || u == 32 || u == 0x85 || u == 0xA0 || u == 0x1680 || (0x2000 <= u
        <= 0x200A) || u == 0x2028 || u == 0x2029 || u == 0x202F || u == 0x205F || u == 0x3000
}

/// Whether a character is Unicode whitespace.
pub fn is_whitespace(c: char) -> (r: bool)
    ensures
        r == is_space(c),
{
    let u = c as u32;
    (9 <= u && u <= 13) || u == 32 || u == 0x85 || u == 0xA0 || u == 0x1680 || (0x2000 <= u && u
        <= 0x200A) || u == 0x2028 || u == 0x2029 || u == 0x202F || u == 0x205F || u == 0x3000
}

/// Number of leading whitespace characters.
pub open spec fn leading_space(s: Seq<char>) -> nat
    decreases s.len(),
{
    if s.len() > 0 && is_space(s[0]) {
        1 + leading_space(s.drop_first())
    } else {
        0
    }
}

/// Number of trailing whitespace characters.
pub open spec fn trailing_space(s: Seq<char>) -> nat
    decreases s.len(),
{
    if s.len() > 0 && is_space(s.last()) {
        1 + trailing_space(s.drop_last())
    } else {
        0
    }
}

/// `s` without leading whitespace (`str::trim_start`).
pub open spec fn trim_start_spec(s: Seq<char>) -> Seq<char> {
    s.subrange(leading_space(s) as int, s.len() as int)
}

/// `s` without trailing whitespace (`str::trim_end`).
pub open spec fn trim_end_spec(s: Seq<char>) -> Seq<char> {
    s.subrange(0, s.len() - trailing_space(s))
}

/// `s` without leading and trailing whitespace (`str::trim`).
pub open spec fn trim_spec(s: Seq<char>) -> Seq<char> {
    trim_end_spec(trim_start_spec(s))
}

pub(crate) proof fn lemma_leading_space_bound(s: Seq<char>)
    ensures
        leading_space(s) <= s.len(),
        forall|i: int| 0 <= i < leading_space(s) ==> is_space(#[trigger] s[i]),
        leading_space(s) < s.len() ==> !is_space(s[leading_space(s) as int]),
    decreases s.len(),
{
    if s.len() > 0 && is_space(s[0]) {
        lemma_leading_space_bound(s.drop_first());
        assert forall|i: int| 0 <= i < leading_space(s) implies is_space(#[trigger] s[i]) by {
            if i > 0 {
                assert(s[i] == s.drop_first()[i - 1]);
            }
        }
    }
}

pub(crate) proof fn lemma_trailing_space_bound(s: Seq<char>)
    ensures
        trailing_space(s) <= s.len(),
        forall|i: int| s.len() - trailing_space(s) <= i < s.len() ==> is_space(#[trigger] s[i]),
        trailing_space(s) < s.len() ==> !is_space(s[s.len() - trailing_space(s) - 1]),
    decreases s.len(),
{
    if s.len() > 0 && is_space(s.last()) {
        lemma_trailing_space_bound(s.drop_last());
        assert forall|i: int| s.len() - trailing_space(s) <= i < s.len() implies is_space(
            #[trigger] s[i],
        ) by {
            if i < s.len() - 1 {
                assert(s[i] == s.drop_last()[i]);
            }
        }
    }
}

/// Position of the first non-whitespace character of `v[from..]`.
fn skip_leading(v: &[char]) -> (k: usize)
    ensures
        k == leading_space(v@),
{
    let mut k: usize = 0;
    assert(v@.subrange(0, v@.len() as int) =~= v@);
    while k < v.len() && is_whitespace(v[k])
        invariant
            k <= v.len(),
            leading_space(v@) == k + leading_space(v@.subrange(k as int, v@.len() as int)),
        decreases v.len() - k,
    {
        proof {
            let rest = v@.subrange(k as int, v@.len() as int);
            assert(rest.drop_first() =~= v@.subrange(k + 1, v@.len() as int));
        }
        k = k + 1;
    }
    proof {
        let rest = v@.subrange(k as int, v@.len() as int);
        assert(rest.len() == 0 || !is_space(rest[0]));
    }
    k
}

/// Number of trailing whitespace characters of `v`.
fn count_trailing(v: &[char]) -> (k: usize)
    ensures
        k == trailing_space(v@),
{
    let mut k: usize = 0;
    assert(v@.subrange(0, v@.len() as int) =~= v@);
    while k < v.len() && is_whitespace(v[v.len() - 1 - k])
        invariant
            k <= v.len(),
            trailing_space(v@) == k + trailing_space(v@.subrange(0, v@.len() - k)),
        decreases v.len() - k,
    {
        proof {
            let rest = v@.subrange(0, v@.len() - k);
            assert(rest.drop_last() =~= v@.subrange(0, v@.len() - k - 1));
        }
        k = k + 1;
    }
    proof {
        let rest = v@.subrange(0, v@.len() - k);
        assert(rest.len() == 0 || !is_space(rest.last()));
    }
    k
}

/// The characters of `v` without leading and trailing whitespace.
pub fn trim_chars(v: &[char]) -> (r: Vec<char>)
    ensures
        r@ == trim_spec(v@),
{
    let start = skip_leading(v);
    proof {
        lemma_leading_space_bound(v@);
    }
    let mut tail: Vec<char> = Vec::new();
    let mut i = start;
    while i < v.len()
        invariant
            start <= i <= v.len(),
            tail@ == v@.subrange(start as int, i as int),
        decreases v.len() - i,
    {
        tail.push(v[i]);
        i = i + 1;
    }
    let end = count_trailing(tail.as_slice());
    proof {
        lemma_trailing_space_bound(tail@);
    }
    let mut out: Vec<char> = Vec::new();
    let mut j: usize = 0;
    while j < tail.len() - end
        invariant
            end <= tail.len(),
            j <= tail.len() - end,
            out@ == tail@.subrange(0, j as int),
        decreases tail.len() - end - j,
    {
        out.push(tail[j]);
        j = j + 1;
    }
    out
}

/// `str::trim` as a new `String`.
pub fn trim_str(s: &str) -> (r: String)
    ensures
        r@ == trim_spec(s@),
{
    let v = chars_of(s);
    let t = trim_chars(v.as_slice());
    string_of(t.as_slice())
}

/// ASCII lower-casing of one character.
pub open spec fn ascii_lower(c: char) -> char {
    if 'A' <= c <= 'Z' {
        ((c as u32) + 32) as char
    } else {
        c
    }
}

/// ASCII lower-casing of a character sequence (`str::to_ascii_lowercase`).
pub open spec fn ascii_lower_seq(s: Seq<char>) -> Seq<char> {
    s.map_values(|c: char| ascii_lower(c))
}

/// ASCII lower-casing of one character.
pub fn to_ascii_lower(c: char) -> (r: char)
    ensures
        r == ascii_lower(c),
{
    if 'A' <= c && c <= 'Z' {
        let u = (c as u32) + 32;
        let b = u as u8;
        b as char
    } else {
        c
    }
}

/// ASCII lower-casing of a character slice.
pub fn ascii_lower_chars(v: &[char]) -> (r: Vec<char>)
    ensures
        r@ == ascii_lower_seq(v@),
{
    let mut out: Vec<char> = Vec::new();
    let mut i: usize = 0;
    while i < v.len()
        invariant
            i <= v.len(),
            out@ == ascii_lower_seq(v@.subrange(0, i as int)),
        decreases v.len() - i,
    {
        out.push(to_ascii_lower(v[i]));
        i = i + 1;
        assert(ascii_lower_seq(v@.subrange(0, i as int)) =~= ascii_lower_seq(
            v@.subrange(0, i - 1),
        ).push(ascii_lower(v@[i - 1])));
    }
    assert(v@.subrange(0, v@.len() as int) =~= v@);
    out
}

/// Case-insensitive ASCII comparison (`str::eq_ignore_ascii_case`).
pub fn eq_ignore_ascii_case(a: &str, b: &str) -> (r: bool)
    ensures
        r == (ascii_lower_seq(a@) == ascii_lower_seq(b@)),
{
    let av = ascii_lower_chars(chars_of(a).as_slice());
    let bv = ascii_lower_chars(chars_of(b).as_slice());
    chars_eq(av.as_slice(), bv.as_slice())
}

/// The full Unicode lower-casing of a string, as `str::to_lowercase` computes it.
pub uninterp spec fn lowercase_of(s: Seq<char>) -> Seq<char>;

/// `str::to_lowercase`: the Unicode lower-case mapping of every character.
#[verifier::external_body]
pub(crate) fn to_lowercase(s: &str) -> (r: String)
    ensures
        r@ == lowercase_of(s@),
{
    s.to_lowercase()
}

// ---------------------------------------------------------------------------
// Searching and replacing
// ---------------------------------------------------------------------------

/// `s` with every `from` replaced by `to`.
pub open spec fn replace_char_spec(s: Seq<char>, from: char, to: char) -> Seq<char> {
    s.map_values(|c: char| if c == from { to } else { c })
}

/// Replaces every occurrence of a character.
pub fn replace_char(v: &[char], from: char, to: char) -> (r: Vec<char>)
    ensures
        r@ == replace_char_spec(v@, from, to),
{
    let mut out: Vec<char> = Vec::new();
    let mut i: usize = 0;
    while i < v.len()
        invariant
            i <= v.len(),
            out@ == replace_char_spec(v@.subrange(0, i as int), from, to),
        decreases v.len() - i,
    {
        out.push(if v[i] == from { to } else { v[i] });
        i = i + 1;
        assert(replace_char_spec(v@.subrange(0, i as int), from, to) =~= replace_char_spec(
            v@.subrange(0, i - 1),
            from,
            to,
        ).push(if v@[i - 1] == from { to } else { v@[i - 1] }));
    }
    assert(v@.subrange(0, v@.len() as int) =~= v@);
    out
}

/// Whether `s` starts with `p`.
pub open spec fn starts_with_spec(s: Seq<char>, p: Seq<char>) -> bool {
    p.len() <= s.len() && s.subrange(0, p.len() as int) == p
}

/// Whether `s` ends with `p`.
pub open spec fn ends_with_spec(s: Seq<char>, p: Seq<char>) -> bool {
    p.len() <= s.len() && s.subrange(s.len() - p.len(), s.len() as int) == p
}

/// Whether the characters of `s` start with those of `p`.
pub fn starts_with(s: &[char], p: &[char]) -> (r: bool)
    ensures
        r == starts_with_spec(s@, p@),
{
    if p.len() > s.len() {
        return false;
    }
    let mut i: usize = 0;
    while i < p.len()
        invariant
            p.len() <= s.len(),
            i <= p.len(),
            forall|j: int| 0 <= j < i ==> s@[j] == p@[j],
        decreases p.len() - i,
    {
        if s[i] != p[i] {
            return false;
        }
        i = i + 1;
    }
    assert(s@.subrange(0, p@.len() as int) =~= p@);
    true
}

/// Whether the characters of `s` end with those of `p`.
pub fn ends_with(s: &[char], p: &[char]) -> (r: bool)
    ensures
        r == ends_with_spec(s@, p@),
{
    if p.len() > s.len() {
        return false;
    }
    let off = s.len() - p.len();
    let mut i: usize = 0;
    while i < p.len()
        invariant
            p.len() <= s.len(),
            off == s.len() - p.len(),
            i <= p.len(),
            forall|j: int| 0 <= j < i ==> s@[off + j] == p@[j],
        decreases p.len() - i,
    {
        if s[off + i] != p[i] {
            return false;
        }
        i = i + 1;
    }
    assert(s@.subrange(off as int, s@.len() as int) =~= p@);
    true
}

// ---------------------------------------------------------------------------
// Splitting
// ---------------------------------------------------------------------------

/// The pieces of `s` between occurrences of `sep` (`str::split` with a `char`).
pub open spec fn split_on(s: Seq<char>, sep: char) -> Seq<Seq<char>>
    decreases s.len(),
{
    if s.len() == 0 {
        seq![Seq::empty()]
    } else {
        let rest = split_on(s.drop_last(), sep);
        if s.last() == sep {
            rest.push(Seq::empty())
        } else {
            rest.update(rest.len() - 1, rest.last().push(s.last()))
        }
    }
}

/// `split_on` never yields an empty list.
pub proof fn lemma_split_on_nonempty(s: Seq<char>, sep: char)
    ensures
        split_on(s, sep).len() >= 1,
    decreases s.len(),
{
    if s.len() > 0 {
        lemma_split_on_nonempty(s.drop_last(), sep);
    }
}

/// The views of a list of character vectors.
pub open spec fn views_of(v: Seq<Vec<char>>) -> Seq<Seq<char>> {
    v.map_values(|x: Vec<char>| x@)
}

/// Splits a character slice on a separator.
pub fn split_chars(v: &[char], sep: char) -> (r: Vec<Vec<char>>)
    ensures
        views_of(r@) == split_on(v@, sep),
{
    let mut pieces: Vec<Vec<char>> = Vec::new();
    let mut current: Vec<char> = Vec::new();
    let mut i: usize = 0;
    assert(views_of(pieces@).push(current@) =~= split_on(v@.subrange(0, 0), sep));
    while i < v.len()
        invariant
            i <= v.len(),
            views_of(pieces@).push(current@) == split_on(v@.subrange(0, i as int), sep),
        decreases v.len() - i,
    {
        let ghost prev = v@.subrange(0, i as int);
        let ghost old_pieces = pieces@;
        let ghost old_current = current@;
        proof {
            assert(v@.subrange(0, i + 1).drop_last() =~= prev);
            assert(v@.subrange(0, i + 1).last() == v@[i as int]);
        }
        if v[i] == sep {
            let done = current;
            pieces.push(done);
            current = Vec::new();
            proof {
                assert(views_of(pieces@) =~= views_of(old_pieces).push(old_current));
                assert(views_of(pieces@).push(current@) =~= split_on(prev, sep).push(
                    Seq::empty(),
                ));
            }
        } else {
            current.push(v[i]);
            proof {
                let rest = split_on(prev, sep);
                assert(views_of(pieces@).push(current@) =~= rest.update(
                    rest.len() - 1,
                    rest.last().push(v@[i as int]),
                ));
            }
        }
        i = i + 1;
    }
    pieces.push(current);
    assert(v@.subrange(0, v@.len() as int) =~= v@);
    pieces
}

// ---------------------------------------------------------------------------
// Lexicographic order (by code point, which is also the UTF-8 byte order)
// ---------------------------------------------------------------------------

/// `a` sorts strictly before `b`.
pub open spec fn seq_lt(a: Seq<char>, b: Seq<char>) -> bool
    decreases a.len(),
{
    if a.len() == 0 {
        b.len() > 0
    } else if b.len() == 0 {
        false
    } else if a[0] != b[0] {
        a[0] < b[0]
    } else {
        seq_lt(a.drop_first(), b.drop_first())
    }
}

/// `seq_lt` is irreflexive and asymmetric, and distinct sequences are ordered.
pub proof fn lemma_seq_lt_total(a: Seq<char>, b: Seq<char>)
    ensures
        !seq_lt(a, a),
        seq_lt(a, b) ==> !seq_lt(b, a),
        a != b ==> seq_lt(a, b) || seq_lt(b, a),
    decreases a.len(),
{
    if a.len() > 0 {
        lemma_seq_lt_total(a.drop_first(), a.drop_first());
    }
    if a.len() > 0 && b.len() > 0 && a[0] == b[0] {
        lemma_seq_lt_total(a.drop_first(), b.drop_first());
        if a != b {
            assert(a.drop_first() != b.drop_first()) by {
                if a.drop_first() == b.drop_first() {
                    assert(a =~= seq![a[0]] + a.drop_first());
                    assert(b =~= seq![b[0]] + b.drop_first());
                }
            }
        }
    }
    if a.len() == 0 && b.len() == 0 {
        assert(a =~= b);
    }
}

/// `seq_lt` is transitive.
pub proof fn lemma_seq_lt_transitive(a: Seq<char>, b: Seq<char>, c: Seq<char>)
    requires
        seq_lt(a, b),
        seq_lt(b, c),
    ensures
        seq_lt(a, c),
    decreases a.len(),
{
    if a.len() > 0 && b.len() > 0 && c.len() > 0 && a[0] == b[0] && b[0] == c[0] {
        lemma_seq_lt_transitive(a.drop_first(), b.drop_first(), c.drop_first());
    }
}

/// Lexicographic comparison of two character slices.
pub fn chars_lt(a: &[char], b: &[char]) -> (r: bool)
    ensures
        r == seq_lt(a@, b@),
{
    let mut i: usize = 0;
    assert(a@.subrange(0, a@.len() as int) =~= a@);
    assert(b@.subrange(0, b@.len() as int) =~= b@);
    while i < a.len() && i < b.len() && a[i] == b[i]
        invariant
            i <= a.len(),
            i <= b.len(),
            seq_lt(a@, b@) == seq_lt(
                a@.subrange(i as int, a@.len() as int),
                b@.subrange(i as int, b@.len() as int),
            ),
        decreases a.len() - i,
    {
        proof {
            let ra = a@.subrange(i as int, a@.len() as int);
            let rb = b@.subrange(i as int, b@.len() as int);
            assert(ra.drop_first() =~= a@.subrange(i + 1, a@.len() as int));
            assert(rb.drop_first() =~= b@.subrange(i + 1, b@.len() as int));
        }
        i = i + 1;
    }
    if i == a.len() {
        i < b.len()
    } else if i == b.len() {
        false
    } else {
        a[i] < b[i]
    }
}

/// Whether a list is strictly increasing.
pub open spec fn strictly_sorted(s: Seq<Seq<char>>) -> bool {
    forall|i: int, j: int| 0 <= i < j < s.len() ==> seq_lt(#[trigger] s[i], #[trigger] s[j])
}

/// The views of a list of strings.
pub open spec fn string_views(v: Seq<String>) -> Seq<Seq<char>> {
    v.map_values(|x: String| x@)
}

fn string_before(a: &String, b: &[char]) -> (r: bool)
    ensures
        r == seq_lt(a@, b@),
{
    let av = chars_of(a.as_str());
    chars_lt(av.as_slice(), b)
}

/// Inserts `s` into a strictly increasing list unless it is already present.
pub fn insert_sorted_unique(v: &mut Vec<String>, s: String)
    requires
        strictly_sorted(string_views(old(v)@)),
    ensures
        strictly_sorted(string_views(final(v)@)),
        string_views(final(v)@).to_set() == string_views(old(v)@).to_set().insert(s@),
{
    let ghost before = string_views(v@);
    let sv = chars_of(s.as_str());
    let mut i: usize = 0;
    while i < v.len() && string_before(&v[i], sv.as_slice())
        invariant
            i <= v.len(),
            sv@ == s@,
            string_views(v@) == before,
            strictly_sorted(before),
            forall|j: int| 0 <= j < i ==> seq_lt(#[trigger] before[j], s@),
        decreases v.len() - i,
    {
        assert(before[i as int] == v@[i as int]@);
        i = i + 1;
    }
    assert(i < v.len() ==> before[i as int] == v@[i as int]@);
    if i < v.len() {
        let cur = chars_of(v[i].as_str());
        if chars_eq(cur.as_slice(), sv.as_slice()) {
            proof {
                assert(before[i as int] == s@);
                assert(before.to_set().insert(s@) =~= before.to_set());
            }
            return;
        }
    }
    proof {
        if i < v.len() {
            assert(before[i as int] != s@);
            lemma_seq_lt_total(before[i as int], s@);
            assert(seq_lt(s@, before[i as int]));
        }
    }
    v.insert(i, s);
    proof {
        let after = string_views(v@);
        assert(after =~= before.insert(i as int, s@));
        assert forall|a: int, b: int| 0 <= a < b < after.len() implies seq_lt(
            #[trigger] after[a],
            #[trigger] after[b],
        ) by {
            if b < i {
            } else if a < i && b == i {
            } else if a < i && b > i {
                assert(after[b] == before[b - 1]);
                if b - 1 > a {
                } else {
                }
            } else if a == i {
                assert(after[b] == before[b - 1]);
                if b - 1 > i {
                    lemma_seq_lt_transitive(s@, before[i as int], before[b - 1]);
                }
            } else {
                assert(after[a] == before[a - 1]);
                assert(after[b] == before[b - 1]);
            }
        }
        assert(after.to_set() =~= before.to_set().insert(s@)) by {
            assert forall|x: Seq<char>| after.to_set().contains(x) <==> before.to_set().insert(
                s@,
            ).contains(x) by {
                if after.to_set().contains(x) {
                    let k = choose|k: int| 0 <= k < after.len() && after[k] == x;
                    if k < i {
                        assert(before[k] == x);
                    } else if k > i {
                        assert(before[k - 1] == x);
                    }
                }
                if before.to_set().contains(x) {
                    let k = choose|k: int| 0 <= k < before.len() && before[k] == x;
                    if k < i {
                        assert(after[k] == x);
                    } else {
                        assert(after[k + 1] == x);
                    }
                }
                if x == s@ {
                    assert(after[i as int] == x);
                }
            }
        }
    }
}

// ---------------------------------------------------------------------------
// Slices, lines, separators
// ---------------------------------------------------------------------------

/// Copies `v[from..to]`.
pub fn slice_chars(v: &[char], from: usize, to: usize) -> (r: Vec<char>)
    requires
        from <= to <= v.len(),
    ensures
        r@ == v@.subrange(from as int, to as int),
{
    let mut out: Vec<char> = Vec::new();
    let mut i = from;
    while i < to
        invariant
            from <= i <= to <= v.len(),
            out@ =~= v@.subrange(from as int, i as int),
        decreases to - i,
    {
        out.push(v[i]);
        i = i + 1;
    }
    out
}

/// `s` without one trailing carriage return.
pub open spec fn strip_cr(s: Seq<char>) -> Seq<char> {
    if s.len() > 0 && s.last() == '\r' {
        s.drop_last()
    } else {
        s
    }
}

/// The lines of a text as `str::lines` yields them: split at `\n`, a `\r` before each
/// `\n` removed, and no final empty line after a trailing `\n`.
pub open spec fn lines_of(s: Seq<char>) -> Seq<Seq<char>> {
    let pieces = split_on(s, '\n');
    let init = pieces.take(pieces.len() - 1).map_values(|p: Seq<char>| strip_cr(p));
    if pieces.last().len() == 0 {
        init
    } else {
        init.push(pieces.last())
    }
}

fn strip_cr_exec(v: Vec<char>) -> (r: Vec<char>)
    ensures
        r@ == strip_cr(v@),
{
    let mut v = v;
    if v.len() > 0 && v[v.len() - 1] == '\r' {
        v.pop();
    }
    v
}

/// Splits a text into lines (`str::lines`).
pub fn split_lines(v: &[char]) -> (r: Vec<Vec<char>>)
    ensures
        views_of(r@) == lines_of(v@),
{
    let pieces = split_chars(v, '\n');
    proof {
        lemma_split_on_nonempty(v@, '\n');
    }
    let n = pieces.len();
    let mut out: Vec<Vec<char>> = Vec::new();
    let mut i: usize = 0;
    while i + 1 < n
        invariant
            n == pieces.len(),
            n >= 1,
            i + 1 <= n,
            views_of(pieces@) == split_on(v@, '\n'),
            views_of(out@) =~= split_on(v@, '\n').take(i as int).map_values(
                |p: Seq<char>| strip_cr(p),
            ),
        decreases n - i,
    {
        let ghost before = out@;
        let piece = strip_cr_exec(pieces[i].clone());
        out.push(piece);
        proof {
            assert(views_of(pieces@)[i as int] == pieces@[i as int]@);
            assert(views_of(out@) =~= views_of(before).push(strip_cr(pieces@[i as int]@)));
            assert(split_on(v@, '\n').take(i + 1) =~= split_on(v@, '\n').take(i as int).push(
                split_on(v@, '\n')[i as int],
            ));
        }
        i = i + 1;
    }
    assert(views_of(pieces@)[n - 1] == pieces@[n - 1]@);
    if pieces[n - 1].len() > 0 {
        out.push(pieces[n - 1].clone());
    }
    out
}

/// The index of the first `c` in `s`, if any.
pub open spec fn first_index_of(s: Seq<char>, c: char) -> Option<int>
    decreases s.len(),
{
    if s.len() == 0 {
        None
    } else if s[0] == c {
        Some(0)
    } else {
        match first_index_of(s.drop_first(), c) {
            Some(i) => Some(i + 1),
            None => None,
        }
    }
}

pub proof fn lemma_first_index_of(s: Seq<char>, c: char)
    ensures
        match first_index_of(s, c) {
            Some(i) => 0 <= i < s.len() && s[i] == c && forall|j: int| 0 <= j < i ==> s[j] != c,
            None => forall|j: int| 0 <= j < s.len() ==> s[j] != c,
        },
    decreases s.len(),
{
    if s.len() > 0 && s[0] != c {
        lemma_first_index_of(s.drop_first(), c);
        match first_index_of(s.drop_first(), c) {
            Some(i) => {
                assert forall|j: int| 0 <= j < i + 1 implies s[j] != c by {
                    if j > 0 {
                        assert(s[j] == s.drop_first()[j - 1]);
                    }
                }
            },
            None => {
                assert forall|j: int| 0 <= j < s.len() implies s[j] != c by {
                    if j > 0 {
                        assert(s[j] == s.drop_first()[j - 1]);
                    }
                }
            },
        }
    }
}

/// Finds the first occurrence of `c`.
pub fn find_char(v: &[char], c: char) -> (r: Option<usize>)
    ensures
        match r {
            Some(i) => first_index_of(v@, c) == Some(i as int),
            None => first_index_of(v@, c) is None,
        },
{
    proof {
        lemma_first_index_of(v@, c);
    }
    let mut i: usize = 0;
    while i < v.len()
        invariant
            i <= v.len(),
            forall|j: int| 0 <= j < i ==> v@[j] != c,
            match first_index_of(v@, c) {
                Some(k) => 0 <= k < v@.len() && v@[k] == c && forall|j: int|
                    0 <= j < k ==> v@[j] != c,
                None => forall|j: int| 0 <= j < v@.len() ==> v@[j] != c,
            },
        decreases v.len() - i,
    {
        if v[i] == c {
            return Some(i);
        }
        i = i + 1;
    }
    None
}

/// The number of leading occurrences of `c` in `s`.
pub open spec fn leading_count(s: Seq<char>, c: char) -> nat
    decreases s.len(),
{
    if s.len() > 0 && s[0] == c {
        1 + leading_count(s.drop_first(), c)
    } else {
        0
    }
}

/// `s` without leading and trailing occurrences of `c` (`str::trim_matches` with a
/// `char`).
pub open spec fn trim_matches_spec(s: Seq<char>, c: char) -> Seq<char> {
    let a = s.skip(leading_count(s, c) as int);
    trim_end_char_of(a, c)
}

/// `s` without trailing occurrences of `c`.
pub open spec fn trim_end_char_of(s: Seq<char>, c: char) -> Seq<char>
    decreases s.len(),
{
    if s.len() > 0 && s.last() == c {
        trim_end_char_of(s.drop_last(), c)
    } else {
        s
    }
}

proof fn lemma_leading_count_bound(s: Seq<char>, c: char)
    ensures
        leading_count(s, c) <= s.len(),
    decreases s.len(),
{
    if s.len() > 0 && s[0] == c {
        lemma_leading_count_bound(s.drop_first(), c);
    }
}

/// Removes leading and trailing occurrences of `c`.
pub fn trim_matches_char(v: &[char], c: char) -> (r: Vec<char>)
    ensures
        r@ == trim_matches_spec(v@, c),
{
    let mut start: usize = 0;
    proof {
        lemma_leading_count_bound(v@, c);
    }
    assert(v@.skip(0) =~= v@);
    while start < v.len() && v[start] == c
        invariant
            start <= v.len(),
            leading_count(v@, c) == start + leading_count(v@.skip(start as int), c),
        decreases v.len() - start,
    {
        assert(v@.skip(start as int).drop_first() =~= v@.skip(start + 1));
        start = start + 1;
    }
    assert(leading_count(v@.skip(start as int), c) == 0);
    let mut end: usize = v.len();
    while end > start && v[end - 1] == c
        invariant
            start <= end <= v.len(),
            trim_end_char_of(v@.subrange(start as int, end as int), c) == trim_end_char_of(
                v@.skip(start as int),
                c,
            ),
        decreases end,
    {
        assert(v@.subrange(start as int, end as int).drop_last() =~= v@.subrange(
            start as int,
            end - 1,
        ));
        end = end - 1;
    }
    proof {
        assert(v@.subrange(start as int, v.len() as int) =~= v@.skip(start as int));
    }
    slice_chars(v, start, end)
}

/// Pieces joined by a separator.
pub open spec fn join_with(pieces: Seq<Seq<char>>, sep: Seq<char>) -> Seq<char>
    decreases pieces.len(),
{
    if pieces.len() == 0 {
        Seq::empty()
    } else if pieces.len() == 1 {
        pieces[0]
    } else {
        join_with(pieces.drop_last(), sep) + sep + pieces.last()
    }
}

/// Joins `pieces[from..to]` with a separator.
pub fn join_range(pieces: &Vec<Vec<char>>, from: usize, to: usize, sep: &[char]) -> (r: Vec<char>)
    requires
        from <= to <= pieces.len(),
    ensures
        r@ == join_with(views_of(pieces@).subrange(from as int, to as int), sep@),
{
    let mut out: Vec<char> = Vec::new();
    let mut i = from;
    while i < to
        invariant
            from <= i <= to <= pieces.len(),
            out@ == join_with(views_of(pieces@).subrange(from as int, i as int), sep@),
        decreases to - i,
    {
        let ghost before = views_of(pieces@).subrange(from as int, i as int);
        let ghost after = views_of(pieces@).subrange(from as int, i + 1);
        assert(after.drop_last() =~= before);
        assert(after.last() == pieces@[i as int]@);
        if i > from {
            let mut k: usize = 0;
            while k < sep.len()
                invariant
                    k <= sep.len(),
                    out@ == join_with(before, sep@) + sep@.subrange(0, k as int),
                decreases sep.len() - k,
            {
                out.push(sep[k]);
                k = k + 1;
                assert(sep@.subrange(0, k as int) =~= sep@.subrange(0, k - 1).push(sep@[k - 1]));
            }
            assert(sep@.subrange(0, sep@.len() as int) =~= sep@);
        }
        let mut k: usize = 0;
        let piece = &pieces[i];
        let ghost base = out@;
        while k < piece.len()
            invariant
                k <= piece.len(),
                out@ == base + piece@.subrange(0, k as int),
            decreases piece.len() - k,
        {
            out.push(piece[k]);
            k = k + 1;
            assert(piece@.subrange(0, k as int) =~= piece@.subrange(0, k - 1).push(piece@[k - 1]));
        }
        assert(piece@.subrange(0, piece@.len() as int) =~= piece@);
        proof {
            if i == from {
                assert(after.len() == 1);
                assert(out@ =~= after[0]);
            } else {
                assert(out@ =~= join_with(before, sep@) + sep@ + after.last());
            }
        }
        i = i + 1;
    }
    out
}

/// Why a number did not parse (`core::num::IntErrorKind`).
#[derive(Debug, Clone, Copy, PartialEq, Eq, Structural)]
pub enum IntErrorKind {
    Empty,
    InvalidDigit,
    PosOverflow,
}

impl IntErrorKind {
    /// The text std's `ParseIntError` displays for this kind.
    pub fn description(&self) -> (s: &'static str)
        ensures
            s@ == int_error_text(*self),
    {
        match self {
            IntErrorKind::Empty => "cannot parse integer from empty string",
            IntErrorKind::InvalidDigit => "invalid digit found in string",
            IntErrorKind::PosOverflow => "number too large to fit in target type",
        }
    }
}

/// The text std's `ParseIntError` displays for a kind.
pub open spec fn int_error_text(k: IntErrorKind) -> Seq<char> {
    match k {
        IntErrorKind::Empty => "cannot parse integer from empty string"@,
        IntErrorKind::InvalidDigit => "invalid digit found in string"@,
        IntErrorKind::PosOverflow => "number too large to fit in target type"@,
    }
}

/// Digits read left to right onto `acc`: the first non-digit, or the first step past
/// `max`, is the error.
pub open spec fn scan_digits(s: Seq<char>, max: int, acc: int) -> Result<int, IntErrorKind>
    decreases s.len(),
{
    if s.len() == 0 {
        Ok(acc)
    } else if !('0' <= s[0] <= '9') {
        Err(IntErrorKind::InvalidDigit)
    } else if acc * 10 + digit_value(s[0]) > max {
        Err(IntErrorKind::PosOverflow)
    } else {
        scan_digits(s.drop_first(), max, acc * 10 + digit_value(s[0]))
    }
}

/// What `str::parse` gives for an unsigned type whose largest value is `max`.
pub open spec fn parse_unsigned_spec(s: Seq<char>, max: int) -> Result<int, IntErrorKind> {
    if s.len() == 0 {
        Err(IntErrorKind::Empty)
    } else {
        let body = if s[0] == '+' {
            s.drop_first()
        } else {
            s
        };
        if body.len() == 0 {
            Err(IntErrorKind::InvalidDigit)
        } else {
            scan_digits(body, max, 0)
        }
    }
}

/// Whether `c` is a Unicode decimal digit (general category `Nd`), which the pattern
/// class `\d` matches.
pub open spec fn unicode_decimal(c: char) -> bool {
    ('\u{30}' <= c <= '\u{39}')
        || ('\u{660}' <= c <= '\u{669}')
        || ('\u{6f0}' <= c <= '\u{6f9}')
        || ('\u{7c0}' <= c <= '\u{7c9}')
        || ('\u{966}' <= c <= '\u{96f}')
        || ('\u{9e6}' <= c <= '\u{9ef}')
        || ('\u{a66}' <= c <= '\u{a6f}')
        || ('\u{ae6}' <= c <= '\u{aef}')
        || ('\u{b66}' <= c <= '\u{b6f}')
        || ('\u{be6}' <= c <= '\u{bef}')
        || ('\u{c66}' <= c <= '\u{c6f}')
        || ('\u{ce6}' <= c <= '\u{cef}')
        || ('\u{d66}' <= c <= '\u{d6f}')
        || ('\u{de6}' <= c <= '\u{def}')
        || ('\u{e50}' <= c <= '\u{e59}')
        || ('\u{ed0}' <= c <= '\u{ed9}')
        || ('\u{f20}' <= c <= '\u{f29}')
        || ('\u{1040}' <= c <= '\u{1049}')
        || ('\u{1090}' <= c <= '\u{1099}')
        || ('\u{17e0}' <= c <= '\u{17e9}')
        || ('\u{1810}' <= c <= '\u{1819}')
        || ('\u{1946}' <= c <= '\u{194f}')
        || ('\u{19d0}' <= c <= '\u{19d9}')
        || ('\u{1a80}' <= c <= '\u{1a89}')
        || ('\u{1a90}' <= c <= '\u{1a99}')
        || ('\u{1b50}' <= c <= '\u{1b59}')
        || ('\u{1bb0}' <= c <= '\u{1bb9}')
        || ('\u{1c40}' <= c <= '\u{1c49}')
        || ('\u{1c50}' <= c <= '\u{1c59}')
        || ('\u{a620}' <= c <= '\u{a629}')
        || ('\u{a8d0}' <= c <= '\u{a8d9}')
        || ('\u{a900}' <= c <= '\u{a909}')
        || ('\u{a9d0}' <= c <= '\u{a9d9}')
        || ('\u{a9f0}' <= c <= '\u{a9f9}')
        || ('\u{aa50}' <= c <= '\u{aa59}')
        || ('\u{abf0}' <= c <= '\u{abf9}')
        || ('\u{ff10}' <= c <= '\u{ff19}')
        || ('\u{104a0}' <= c <= '\u{104a9}')
        || ('\u{10d30}' <= c <= '\u{10d39}')
        || ('\u{10d40}' <= c <= '\u{10d49}')
        || ('\u{11066}' <= c <= '\u{1106f}')
        || ('\u{110f0}' <= c <= '\u{110f9}')
        || ('\u{11136}' <= c <= '\u{1113f}')
        || ('\u{111d0}' <= c <= '\u{111d9}')
        || ('\u{112f0}' <= c <= '\u{112f9}')
        || ('\u{11450}' <= c <= '\u{11459}')
        || ('\u{114d0}' <= c <= '\u{114d9}')
        || ('\u{11650}' <= c <= '\u{11659}')
        || ('\u{116c0}' <= c <= '\u{116c9}')
        || ('\u{116d0}' <= c <= '\u{116e3}')
        || ('\u{11730}' <= c <= '\u{11739}')
        || ('\u{118e0}' <= c <= '\u{118e9}')
        || ('\u{11950}' <= c <= '\u{11959}')
        || ('\u{11bf0}' <= c <= '\u{11bf9}')
        || ('\u{11c50}' <= c <= '\u{11c59}')
        || ('\u{11d50}' <= c <= '\u{11d59}')
        || ('\u{11da0}' <= c <= '\u{11da9}')
        || ('\u{11f50}' <= c <= '\u{11f59}')
        || ('\u{16130}' <= c <= '\u{16139}')
        || ('\u{16a60}' <= c <= '\u{16a69}')
        || ('\u{16ac0}' <= c <= '\u{16ac9}')
        || ('\u{16b50}' <= c <= '\u{16b59}')
        || ('\u{16d70}' <= c <= '\u{16d79}')
        || ('\u{1ccf0}' <= c <= '\u{1ccf9}')
        || ('\u{1d7ce}' <= c <= '\u{1d7ff}')
        || ('\u{1e140}' <= c <= '\u{1e149}')
        || ('\u{1e2f0}' <= c <= '\u{1e2f9}')
        || ('\u{1e4f0}' <= c <= '\u{1e4f9}')
        || ('\u{1e5f1}' <= c <= '\u{1e5fa}')
        || ('\u{1e950}' <= c <= '\u{1e959}')
        || ('\u{1fbf0}' <= c <= '\u{1fbf9}')
}

/// Whether a character is a Unicode decimal digit.
pub fn is_unicode_decimal(c: char) -> (r: bool)
    ensures
        r == unicode_decimal(c),
{
    ('\u{30}' <= c && c <= '\u{39}')
        || ('\u{660}' <= c && c <= '\u{669}')
        || ('\u{6f0}' <= c && c <= '\u{6f9}')
        || ('\u{7c0}' <= c && c <= '\u{7c9}')
        || ('\u{966}' <= c && c <= '\u{96f}')
        || ('\u{9e6}' <= c && c <= '\u{9ef}')
        || ('\u{a66}' <= c && c <= '\u{a6f}')
        || ('\u{ae6}' <= c && c <= '\u{aef}')
        || ('\u{b66}' <= c && c <= '\u{b6f}')
        || ('\u{be6}' <= c && c <= '\u{bef}')
        || ('\u{c66}' <= c && c <= '\u{c6f}')
        || ('\u{ce6}' <= c && c <= '\u{cef}')
        || ('\u{d66}' <= c && c <= '\u{d6f}')
        || ('\u{de6}' <= c && c <= '\u{def}')
        || ('\u{e50}' <= c && c <= '\u{e59}')
        || ('\u{ed0}' <= c && c <= '\u{ed9}')
        || ('\u{f20}' <= c && c <= '\u{f29}')
        || ('\u{1040}' <= c && c <= '\u{1049}')
        || ('\u{1090}' <= c && c <= '\u{1099}')
        || ('\u{17e0}' <= c && c <= '\u{17e9}')
        || ('\u{1810}' <= c && c <= '\u{1819}')
        || ('\u{1946}' <= c && c <= '\u{194f}')
        || ('\u{19d0}' <= c && c <= '\u{19d9}')
        || ('\u{1a80}' <= c && c <= '\u{1a89}')
        || ('\u{1a90}' <= c && c <= '\u{1a99}')
        || ('\u{1b50}' <= c && c <= '\u{1b59}')
        || ('\u{1bb0}' <= c && c <= '\u{1bb9}')
        || ('\u{1c40}' <= c && c <= '\u{1c49}')
        || ('\u{1c50}' <= c && c <= '\u{1c59}')
        || ('\u{a620}' <= c && c <= '\u{a629}')
        || ('\u{a8d0}' <= c && c <= '\u{a8d9}')
        || ('\u{a900}' <= c && c <= '\u{a909}')
        || ('\u{a9d0}' <= c && c <= '\u{a9d9}')
        || ('\u{a9f0}' <= c && c <= '\u{a9f9}')
        || ('\u{aa50}' <= c && c <= '\u{aa59}')
        || ('\u{abf0}' <= c && c <= '\u{abf9}')
        || ('\u{ff10}' <= c && c <= '\u{ff19}')
        || ('\u{104a0}' <= c && c <= '\u{104a9}')
        || ('\u{10d30}' <= c && c <= '\u{10d39}')
        || ('\u{10d40}' <= c && c <= '\u{10d49}')
        || ('\u{11066}' <= c && c <= '\u{1106f}')
        || ('\u{110f0}' <= c && c <= '\u{110f9}')
        || ('\u{11136}' <= c && c <= '\u{1113f}')
        || ('\u{111d0}' <= c && c <= '\u{111d9}')
        || ('\u{112f0}' <= c && c <= '\u{112f9}')
        || ('\u{11450}' <= c && c <= '\u{11459}')
        || ('\u{114d0}' <= c && c <= '\u{114d9}')
        || ('\u{11650}' <= c && c <= '\u{11659}')
        || ('\u{116c0}' <= c && c <= '\u{116c9}')
        || ('\u{116d0}' <= c && c <= '\u{116e3}')
        || ('\u{11730}' <= c && c <= '\u{11739}')
        || ('\u{118e0}' <= c && c <= '\u{118e9}')
        || ('\u{11950}' <= c && c <= '\u{11959}')
        || ('\u{11bf0}' <= c && c <= '\u{11bf9}')
        || ('\u{11c50}' <= c && c <= '\u{11c59}')
        || ('\u{11d50}' <= c && c <= '\u{11d59}')
        || ('\u{11da0}' <= c && c <= '\u{11da9}')
        || ('\u{11f50}' <= c && c <= '\u{11f59}')
        || ('\u{16130}' <= c && c <= '\u{16139}')
        || ('\u{16a60}' <= c && c <= '\u{16a69}')
        || ('\u{16ac0}' <= c && c <= '\u{16ac9}')
        || ('\u{16b50}' <= c && c <= '\u{16b59}')
        || ('\u{16d70}' <= c && c <= '\u{16d79}')
        || ('\u{1ccf0}' <= c && c <= '\u{1ccf9}')
        || ('\u{1d7ce}' <= c && c <= '\u{1d7ff}')
        || ('\u{1e140}' <= c && c <= '\u{1e149}')
        || ('\u{1e2f0}' <= c && c <= '\u{1e2f9}')
        || ('\u{1e4f0}' <= c && c <= '\u{1e4f9}')
        || ('\u{1e5f1}' <= c && c <= '\u{1e5fa}')
        || ('\u{1e950}' <= c && c <= '\u{1e959}')
        || ('\u{1fbf0}' <= c && c <= '\u{1fbf9}')
}

// ---------------------------------------------------------------------------
// Decimal numbers
// ---------------------------------------------------------------------------

/// Whether a character is an ASCII digit.
pub open spec fn is_digit(c: char) -> bool {
    '0' <= c <= '9'
}

proof fn lemma_digit_char(d: nat)
    requires
        d < 10,
    ensures
        is_digit(digit_char(d)),
        digit_value(digit_char(d)) == d,
{
}

/// A decimal rendering is a non-empty run of digits.
pub proof fn lemma_decimal_digits(n: nat)
    ensures
        decimal_chars(n).len() >= 1,
        forall|i: int| 0 <= i < decimal_chars(n).len() ==> is_digit(#[trigger] decimal_chars(n)[i]),
    decreases n,
{
    if n < 10 {
        lemma_digit_char(n);
    } else {
        lemma_decimal_digits(n / 10);
        lemma_digit_char(n % 10);
        let p = decimal_chars(n / 10);
        assert forall|i: int| 0 <= i < decimal_chars(n).len() implies is_digit(
            #[trigger] decimal_chars(n)[i],
        ) by {
            if i < p.len() {
                assert(decimal_chars(n)[i] == p[i]);
            }
        }
    }
}

proof fn lemma_scan_push(s: Seq<char>, c: char, max: int, acc: int, v: int)
    requires
        scan_digits(s, max, acc) == Ok::<int, IntErrorKind>(v),
        is_digit(c),
        v * 10 + digit_value(c) <= max,
    ensures
        scan_digits(s.push(c), max, acc) == Ok::<int, IntErrorKind>(
            v * 10 + digit_value(c),
        ),
    decreases s.len(),
{
    let t = s.push(c);
    if s.len() == 0 {
        assert(v == acc);
        assert(t[0] == c);
        assert(t.drop_first() =~= Seq::<char>::empty());
        assert(scan_digits(t.drop_first(), max, acc * 10 + digit_value(c)) == Ok::<
            int,
            IntErrorKind,
        >(acc * 10 + digit_value(c)));
    } else {
        assert(t[0] == s[0]);
        assert('0' <= s[0] <= '9');
        assert(acc * 10 + digit_value(s[0]) <= max);
        assert(t.drop_first() =~= s.drop_first().push(c));
        lemma_scan_push(s.drop_first(), c, max, acc * 10 + digit_value(s[0]), v);
    }
}

/// Reading back a decimal rendering gives the number.
pub proof fn lemma_parse_decimal(n: nat, max: int)
    requires
        n <= max,
    ensures
        parse_unsigned_spec(decimal_chars(n), max) == Ok::<int, IntErrorKind>(
            n as int,
        ),
{
    lemma_scan_decimal(n, max);
    lemma_decimal_digits(n);
    assert(is_digit(decimal_chars(n)[0]));
}

proof fn lemma_scan_decimal(n: nat, max: int)
    requires
        n <= max,
    ensures
        scan_digits(decimal_chars(n), max, 0) == Ok::<int, IntErrorKind>(n as int),
    decreases n,
{
    lemma_digit_char(n % 10);
    if n < 10 {
        let d = decimal_chars(n);
        assert(d == seq![digit_char(n)]);
        assert(n % 10 == n);
        assert(d[0] == digit_char(n));
        assert(d.drop_first() =~= Seq::<char>::empty());
        assert(scan_digits(d.drop_first(), max, digit_value(d[0])) == Ok::<
            int,
            IntErrorKind,
        >(n as int));
    } else {
        lemma_scan_decimal(n / 10, max);
        assert(decimal_chars(n) == decimal_chars(n / 10).push(digit_char(n % 10)));
        assert((n / 10) * 10 + n % 10 == n);
        lemma_scan_push(decimal_chars(n / 10), digit_char(n % 10), max, 0, (n / 10) as int);
    }
}


proof fn lemma_scan_digits_bound(s: Seq<char>, max: int, acc: int)
    requires
        0 <= acc <= max,
    ensures
        scan_digits(s, max, acc) is Ok ==> 0 <= scan_digits(s, max, acc)->Ok_0 <= max,
    decreases s.len(),
{
    if s.len() > 0 && '0' <= s[0] <= '9' && acc * 10 + digit_value(s[0]) <= max {
        lemma_scan_digits_bound(s.drop_first(), max, acc * 10 + digit_value(s[0]));
    }
}

/// Parses an unsigned decimal number no larger than `max`, reporting why it failed as
/// `str::parse` does.
pub fn parse_unsigned(v: &[char], max: u64) -> (r: Result<u64, IntErrorKind>)
    ensures
        match parse_unsigned_spec(v@, max as int) {
            Ok(n) => r is Ok && r->Ok_0 == n,
            Err(k) => r == Err::<u64, IntErrorKind>(k),
        },
{
    if v.len() == 0 {
        return Err(IntErrorKind::Empty);
    }
    let start: usize = if v[0] == '+' {
        1
    } else {
        0
    };
    let ghost body = if v@[0] == '+' {
        v@.drop_first()
    } else {
        v@
    };
    assert(body =~= v@.skip(start as int));
    if start == v.len() {
        return Err(IntErrorKind::InvalidDigit);
    }
    let mut acc: u64 = 0;
    let mut i = start;
    while i < v.len()
        invariant
            start <= i <= v.len(),
            0 <= acc <= max,
            v@.len() > 0,
            start == (if v@[0] == '+' {
                1int
            } else {
                0int
            }),
            body == (if v@[0] == '+' {
                v@.drop_first()
            } else {
                v@
            }),
            body =~= v@.skip(start as int),
            scan_digits(body, max as int, 0) == scan_digits(v@.skip(i as int), max as int, acc as int),
        decreases v.len() - i,
    {
        let c = v[i];
        assert(v@.skip(i as int)[0] == c);
        assert(v@.skip(i as int).drop_first() =~= v@.skip(i + 1));
        if !('0' <= c && c <= '9') {
            return Err(IntErrorKind::InvalidDigit);
        }
        let d: u64 = ((c as u32) - ('0' as u32)) as u64;
        if d > max || acc > (max - d) / 10 {
            assert(acc * 10 + d > max) by (nonlinear_arith)
                requires
                    d > max || acc > (max - d) / 10,
                    acc >= 0,
            ;
            return Err(IntErrorKind::PosOverflow);
        }
        assert(acc * 10 + d <= max) by (nonlinear_arith)
            requires
                acc <= (max - d) / 10,
                d <= max,
        ;
        acc = acc * 10 + d;
        i = i + 1;
    }
    assert(v@.skip(v.len() as int) =~= Seq::<char>::empty());
    Ok(acc)
}

} // verus!
