//! A plain JSON value model: configuration documents, tool arguments and payloads.

use vstd::prelude::*;


use crate::text::{decimal_chars, decimal_string, str_eq};

verus! {

broadcast use vstd::string::group_string_axioms;

/// A JSON number: its value when it is a non-negative integer that fits in `u64`,
/// together with its canonical textual form.
#[derive(Debug)]
pub struct JsonNumber {
    pub unsigned: Option<u64>,
    pub text: String,
}

/// A JSON value. Objects keep their entries in document order.
#[derive(Debug)]
pub enum JsonValue {
    Null,
    Bool(bool),
    Number(JsonNumber),
    String(String),
    Array(Vec<JsonValue>),
    Object(Vec<(String, JsonValue)>),
}

/// The first entry of `entries` whose key is `key`.
pub open spec fn entry_lookup(entries: Seq<(String, JsonValue)>, key: Seq<char>) -> Option<JsonValue>
    decreases entries.len(),
{
    if entries.len() == 0 {
        None
    } else if entries[0].0@ == key {
        Some(entries[0].1)
    } else {
        entry_lookup(entries.drop_first(), key)
    }
}

impl JsonValue {
    /// `self[key]` when `self` is an object holding `key`.
    pub open spec fn spec_get(self, key: Seq<char>) -> Option<JsonValue> {
        match self {
            JsonValue::Object(entries) => entry_lookup(entries@, key),
            _ => None,
        }
    }

    /// The member `key` of an object (`serde_json::Value::get` with a string index).
    pub fn get(&self, key: &str) -> (r: Option<&JsonValue>)
        ensures
            match r {
                Some(v) => self.spec_get(key@) == Some(*v),
                None => self.spec_get(key@) is None,
            },
    {
        match self {
            JsonValue::Object(entries) => {
                let mut i: usize = 0;
                assert(entries@.subrange(0, entries@.len() as int) =~= entries@);
                while i < entries.len()
                    invariant
                        i <= entries.len(),
                        self.spec_get(key@) == entry_lookup(entries@, key@),
                        entry_lookup(entries@, key@) == entry_lookup(
                            entries@.subrange(i as int, entries@.len() as int),
                            key@,
                        ),
                    decreases entries.len() - i,
                {
                    let ghost rest = entries@.subrange(i as int, entries@.len() as int);
                    assert(rest.drop_first() =~= entries@.subrange(i + 1, entries@.len() as int));
                    assert(rest[0] == entries@[i as int]);
                    if str_eq(entries[i].0.as_str(), key) {
                        assert(entry_lookup(rest, key@) == Some(entries@[i as int].1));
                        let found = &entries[i].1;
                        assert(*found == entries@[i as int].1);
                        return Some(found);
                    }
                    i = i + 1;
                }
                None
            },
            _ => None,
        }
    }

    /// The string content of a JSON string.
    pub fn as_str(&self) -> (r: Option<&String>)
        ensures
            match self {
                JsonValue::String(s) => r == Some(s),
                _ => r is None,
            },
    {
        match self {
            JsonValue::String(s) => Some(s),
            _ => None,
        }
    }

    /// The value of a JSON boolean.
    pub fn as_bool(&self) -> (r: Option<bool>)
        ensures
            match self {
                JsonValue::Bool(b) => r == Some(*b),
                _ => r is None,
            },
    {
        match self {
            JsonValue::Bool(b) => Some(*b),
            _ => None,
        }
    }

    /// The value of a JSON number that is a non-negative integer fitting in `u64`.
    pub fn as_u64(&self) -> (r: Option<u64>)
        ensures
            match self {
                JsonValue::Number(n) => r == n.unsigned,
                _ => r is None,
            },
    {
        match self {
            JsonValue::Number(n) => n.unsigned,
            _ => None,
        }
    }

    /// The items of a JSON array.
    pub fn as_array(&self) -> (r: Option<&Vec<JsonValue>>)
        ensures
            match self {
                JsonValue::Array(items) => r == Some(items),
                _ => r is None,
            },
    {
        match self {
            JsonValue::Array(items) => Some(items),
            _ => None,
        }
    }

    /// Whether the value is a JSON object.
    pub fn is_object(&self) -> (r: bool)
        ensures
            r == (self is Object),
    {
        match self {
            JsonValue::Object(_) => true,
            _ => false,
        }
    }
}

/// `v` is the JSON string `s`.
pub open spec fn text_value(v: JsonValue, s: Seq<char>) -> bool {
    match v {
        JsonValue::String(t) => t@ == s,
        _ => false,
    }
}

/// `v` is the JSON number `n`.
pub open spec fn unsigned_value(v: JsonValue, n: u64) -> bool {
    match v {
        JsonValue::Number(x) => x.unsigned == Some(n) && x.text@ == decimal_chars(n as nat),
        _ => false,
    }
}

/// `v` is the JSON boolean `b`.
pub open spec fn bool_value(v: JsonValue, b: bool) -> bool {
    v == JsonValue::Bool(b)
}

/// `v` is the JSON string `t` (or `null` when `t` is `None`).
pub open spec fn optional_text_value(v: JsonValue, t: Option<Seq<char>>) -> bool {
    match t {
        Some(s) => text_value(v, s),
        None => v is Null,
    }
}

/// The entries of an object (empty for other values).
pub open spec fn object_entries(v: JsonValue) -> Seq<(String, JsonValue)> {
    match v {
        JsonValue::Object(entries) => entries@,
        _ => Seq::empty(),
    }
}

/// The items of an array (empty for other values).
pub open spec fn array_items(v: JsonValue) -> Seq<JsonValue> {
    match v {
        JsonValue::Array(items) => items@,
        _ => Seq::empty(),
    }
}

/// Builds a JSON string.
pub fn json_text(s: &str) -> (v: JsonValue)
    ensures
        text_value(v, s@),
{
    JsonValue::String(s.to_string())
}

/// Builds a JSON string from an owned string.
pub fn json_string(s: String) -> (v: JsonValue)
    ensures
        text_value(v, s@),
{
    JsonValue::String(s)
}

/// Builds a JSON number from an unsigned integer.
pub fn json_unsigned(n: u64) -> (v: JsonValue)
    ensures
        unsigned_value(v, n),
{
    JsonValue::Number(JsonNumber { unsigned: Some(n), text: decimal_string(n) })
}

/// Builds a JSON number or `null` from an optional unsigned integer.
pub fn json_optional_unsigned(n: Option<usize>) -> (v: JsonValue)
    ensures
        match n {
            Some(x) => unsigned_value(v, x as u64),
            None => v is Null,
        },
{
    match n {
        Some(x) => json_unsigned(x as u64),
        None => JsonValue::Null,
    }
}

/// Adds a key/value pair at the end of an object's entries.
pub fn push_entry(entries: &mut Vec<(String, JsonValue)>, key: &str, value: JsonValue)
    ensures
        final(entries)@.len() == old(entries)@.len() + 1,
        final(entries)@.subrange(0, old(entries)@.len() as int) == old(entries)@,
        final(entries)@.last().0@ == key@,
        final(entries)@.last().1 == value,
{
    entries.push((key.to_string(), value));
    assert(final(entries)@.subrange(0, old(entries)@.len() as int) =~= old(entries)@);
}

/// `b` has the shape of `a`: the same kinds, scalars and keys, each string of `a` carried
/// to `f` of it in `b`.
pub open spec fn json_mapped(a: JsonValue, b: JsonValue, f: spec_fn(Seq<char>) -> Seq<char>) -> bool
    decreases a,
{
    match a {
        JsonValue::Null => b is Null,
        JsonValue::Bool(x) => b == JsonValue::Bool(x),
        JsonValue::Number(x) => b matches JsonValue::Number(y) && x.unsigned == y.unsigned
            && x.text@ == y.text@,
        JsonValue::String(x) => b matches JsonValue::String(y) && y@ == f(x@),
        JsonValue::Array(xs) => b matches JsonValue::Array(ys) && items_mapped(xs@, ys@, f),
        JsonValue::Object(xs) => b matches JsonValue::Object(ys) && entries_mapped(xs@, ys@, f),
    }
}

/// Item by item, `ys` is `xs` with strings carried by `f`.
pub open spec fn items_mapped(
    xs: Seq<JsonValue>,
    ys: Seq<JsonValue>,
    f: spec_fn(Seq<char>) -> Seq<char>,
) -> bool
    decreases xs,
{
    if xs.len() == 0 {
        ys.len() == 0
    } else {
        &&& ys.len() == xs.len()
        &&& items_mapped(xs.drop_last(), ys.drop_last(), f)
        &&& json_mapped(xs.last(), ys.last(), f)
    }
}

/// Entry by entry, `ys` has the keys of `xs` and its values with strings carried by `f`.
pub open spec fn entries_mapped(
    xs: Seq<(String, JsonValue)>,
    ys: Seq<(String, JsonValue)>,
    f: spec_fn(Seq<char>) -> Seq<char>,
) -> bool
    decreases xs,
{
    if xs.len() == 0 {
        ys.len() == 0
    } else {
        &&& ys.len() == xs.len()
        &&& entries_mapped(xs.drop_last(), ys.drop_last(), f)
        &&& xs.last().0@ == ys.last().0@
        &&& json_mapped(xs.last().1, ys.last().1, f)
    }
}

/// The sum of `g` over the strings of `a`.
pub open spec fn json_count(a: JsonValue, g: spec_fn(Seq<char>) -> nat) -> nat
    decreases a,
{
    match a {
        JsonValue::String(x) => g(x@),
        JsonValue::Array(xs) => items_count(xs@, g),
        JsonValue::Object(xs) => entries_count(xs@, g),
        _ => 0,
    }
}

/// The sum of `g` over the strings of the items `xs`.
pub open spec fn items_count(xs: Seq<JsonValue>, g: spec_fn(Seq<char>) -> nat) -> nat
    decreases xs,
{
    if xs.len() == 0 {
        0
    } else {
        items_count(xs.drop_last(), g) + json_count(xs.last(), g)
    }
}

/// The sum of `g` over the strings of the entry values of `xs`.
pub open spec fn entries_count(xs: Seq<(String, JsonValue)>, g: spec_fn(Seq<char>) -> nat) -> nat
    decreases xs,
{
    if xs.len() == 0 {
        0
    } else {
        entries_count(xs.drop_last(), g) + json_count(xs.last().1, g)
    }
}

/// Item-wise mapping of equally long sequences is `items_mapped`.
pub proof fn lemma_items_mapped(
    xs: Seq<JsonValue>,
    ys: Seq<JsonValue>,
    f: spec_fn(Seq<char>) -> Seq<char>,
)
    requires
        xs.len() == ys.len(),
        forall|j: int| 0 <= j < xs.len() ==> #[trigger] json_mapped(xs[j], ys[j], f),
    ensures
        items_mapped(xs, ys, f),
    decreases xs.len(),
{
    if xs.len() > 0 {
        let a = xs.drop_last();
        let b = ys.drop_last();
        assert forall|j: int| 0 <= j < a.len() implies #[trigger] json_mapped(a[j], b[j], f) by {
            assert(a[j] == xs[j] && b[j] == ys[j]);
        }
        lemma_items_mapped(a, b, f);
        assert(json_mapped(xs[xs.len() - 1], ys[ys.len() - 1], f));
    }
}

/// Entry-wise mapping of equally long sequences with the same keys is `entries_mapped`.
pub proof fn lemma_entries_mapped(
    xs: Seq<(String, JsonValue)>,
    ys: Seq<(String, JsonValue)>,
    f: spec_fn(Seq<char>) -> Seq<char>,
)
    requires
        xs.len() == ys.len(),
        forall|j: int| 0 <= j < xs.len() ==> (#[trigger] xs[j]).0@ == ys[j].0@,
        forall|j: int| 0 <= j < xs.len() ==> #[trigger] json_mapped(xs[j].1, ys[j].1, f),
    ensures
        entries_mapped(xs, ys, f),
    decreases xs.len(),
{
    if xs.len() > 0 {
        let a = xs.drop_last();
        let b = ys.drop_last();
        assert forall|j: int| 0 <= j < a.len() implies #[trigger] json_mapped(a[j].1, b[j].1, f) by {
            assert(a[j] == xs[j] && b[j] == ys[j]);
            assert(json_mapped(xs[j].1, ys[j].1, f));
        }
        assert forall|j: int| 0 <= j < a.len() implies (#[trigger] a[j]).0@ == b[j].0@ by {
            assert(a[j] == xs[j] && b[j] == ys[j]);
        }
        lemma_entries_mapped(a, b, f);
        assert(json_mapped(xs[xs.len() - 1].1, ys[ys.len() - 1].1, f));
        assert(xs[xs.len() - 1].0@ == ys[ys.len() - 1].0@);
    }
}

/// The identity on texts.
pub open spec fn same_text() -> spec_fn(Seq<char>) -> Seq<char> {
    |s: Seq<char>| s
}

/// A deep copy of a value: same shape, scalars, keys and texts.
pub fn copy_json(v: &JsonValue) -> (r: JsonValue)
    ensures
        json_mapped(*v, r, same_text()),
    decreases v,
{
    match v {
        JsonValue::Null => JsonValue::Null,
        JsonValue::Bool(b) => JsonValue::Bool(*b),
        JsonValue::Number(n) => JsonValue::Number(
            JsonNumber { unsigned: n.unsigned, text: n.text.clone() },
        ),
        JsonValue::String(s) => JsonValue::String(s.clone()),
        JsonValue::Array(items) => {
            let mut out: Vec<JsonValue> = Vec::new();
            let mut i: usize = 0;
            while i < items.len()
                invariant
                    *v == JsonValue::Array(*items),
                    i <= items@.len(),
                    out@.len() == i,
                    forall|j: int| 0 <= j < i ==> #[trigger] json_mapped(items@[j], out@[j], same_text()),
                decreases items@.len() - i,
            {
                proof {
                    assert(decreases_to!(*v => v->Array_0));
                    assert(decreases_to!(*items => items@));
                    assert(decreases_to!(items@ => items@[i as int]));
                }
                let c = copy_json(&items[i]);
                out.push(c);
                i = i + 1;
            }
            proof {
                lemma_items_mapped(items@, out@, same_text());
            }
            JsonValue::Array(out)
        },
        JsonValue::Object(entries) => {
            let mut out: Vec<(String, JsonValue)> = Vec::new();
            let mut i: usize = 0;
            while i < entries.len()
                invariant
                    *v == JsonValue::Object(*entries),
                    i <= entries@.len(),
                    out@.len() == i,
                    forall|j: int| 0 <= j < i ==> (#[trigger] entries@[j]).0@ == out@[j].0@,
                    forall|j: int|
                        0 <= j < i ==> #[trigger] json_mapped(entries@[j].1, out@[j].1, same_text()),
                decreases entries@.len() - i,
            {
                proof {
                    assert(decreases_to!(*v => v->Object_0));
                    assert(decreases_to!(*entries => entries@));
                    assert(decreases_to!(entries@ => entries@[i as int]));
                    assert(decreases_to!(entries@[i as int] => entries@[i as int].1));
                }
                let c = copy_json(&entries[i].1);
                let k = entries[i].0.clone();
                out.push((k, c));
                i = i + 1;
            }
            proof {
                lemma_entries_mapped(entries@, out@, same_text());
            }
            JsonValue::Object(out)
        },
    }
}

} // verus!
