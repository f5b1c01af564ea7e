//! A JSON document model and its compact serialization.
//!
//! Objects keep their entries in the order given; lookups return the first
//! entry with a matching key.  The compact byte form follows the usual
//! conventions: no whitespace, `"` `\` and control bytes escaped.
use vstd::prelude::*;
use vstd::string::*;
use vstd::utf8::encode_utf8;

verus! {

/// A JSON number: a non-negative integer, a negative integer, or a
/// non-integral number kept in its textual form.
#[derive(Debug, Clone, PartialEq)]
pub enum JsonNumber {
    PosInt(u64),
    NegInt(i64),
    Float(String),
}

/// A JSON value.
#[derive(Debug, PartialEq)]
pub enum JsonValue {
    Null,
    Bool(bool),
    Number(JsonNumber),
    String(String),
    Array(Vec<JsonValue>),
    Object(Vec<(String, JsonValue)>),
}

/// Index of the first entry whose key is `key`, searching from `from`; -1 if none.
pub open spec fn first_key_index(es: Seq<(String, JsonValue)>, key: Seq<char>, from: int) -> int
    decreases es.len() - from,
{
    if from < 0 || from >= es.len() {
        -1
    } else if es[from].0@ == key {
        from
    } else {
        first_key_index(es, key, from + 1)
    }
}

pub proof fn lemma_first_key_index_range(es: Seq<(String, JsonValue)>, key: Seq<char>, from: int)
    requires
        0 <= from,
    ensures
        first_key_index(es, key, from) == -1 || (from <= first_key_index(es, key, from) < es.len()
            && es[first_key_index(es, key, from)].0@ == key),
    decreases es.len() - from,
{
    if from < es.len() && es[from].0@ != key {
        lemma_first_key_index_range(es, key, from + 1);
    }
}

impl JsonValue {
    /// The value stored under `key` when `self` is an object (first matching entry).
    pub open spec fn spec_get(self, key: Seq<char>) -> Option<JsonValue> {
        match self {
            JsonValue::Object(es) => {
                let i = first_key_index(es@, key, 0);
                if i >= 0 {
                    Some(es@[i].1)
                } else {
                    None
                }
            },
            _ => None,
        }
    }

    pub open spec fn spec_as_u64(self) -> Option<u64> {
        match self {
            JsonValue::Number(JsonNumber::PosInt(n)) => Some(n),
            _ => None,
        }
    }

    pub open spec fn spec_as_i64(self) -> Option<i64> {
        match self {
            JsonValue::Number(JsonNumber::PosInt(n)) => if n <= i64::MAX {
                Some(n as i64)
            } else {
                None
            },
            JsonValue::Number(JsonNumber::NegInt(n)) => Some(n),
            _ => None,
        }
    }

    pub open spec fn spec_as_str(self) -> Option<Seq<char>> {
        match self {
            JsonValue::String(s) => Some(s@),
            _ => None,
        }
    }

    pub open spec fn spec_as_bool(self) -> Option<bool> {
        match self {
            JsonValue::Bool(b) => Some(b),
            _ => None,
        }
    }

    /// Looks up `key` in an object; `None` for other values or a missing key.
    pub fn get(&self, key: &str) -> (r: Option<&JsonValue>)
        ensures
            r matches Some(v) ==> self.spec_get(key@) == Some(*v),
            r is None ==> self.spec_get(key@) is None,
    {
        match self {
            JsonValue::Object(es) => {
                let mut i: usize = 0;
                while i < es.len()
                    invariant
                        i <= es@.len(),
                        *self == JsonValue::Object(*es),
                        first_key_index(es@, key@, 0) == first_key_index(es@, key@, i as int),
                    decreases es@.len() - i,
                {
                    if crate::text::str_eq(es[i].0.as_str(), key) {
                        assert(first_key_index(es@, key@, i as int) == i as int);
                        return Some(&es[i].1);
                    }
                    i = i + 1;
                }
                assert(first_key_index(es@, key@, i as int) == -1);
                None
            },
            _ => None,
        }
    }

    pub fn as_u64(&self) -> (r: Option<u64>)
        ensures
            r == self.spec_as_u64(),
    {
        match self {
            JsonValue::Number(JsonNumber::PosInt(n)) => Some(*n),
            _ => None,
        }
    }

    pub fn as_i64(&self) -> (r: Option<i64>)
        ensures
            r == self.spec_as_i64(),
    {
        match self {
            JsonValue::Number(JsonNumber::PosInt(n)) => if *n <= i64::MAX as u64 {
                Some(*n as i64)
            } else {
                None
            },
            JsonValue::Number(JsonNumber::NegInt(n)) => Some(*n),
            _ => None,
        }
    }

    pub fn as_str(&self) -> (r: Option<&str>)
        ensures
            r matches Some(s) ==> self.spec_as_str() == Some(s@),
            r is None ==> self.spec_as_str() is None,
    {
        match self {
            JsonValue::String(s) => Some(s.as_str()),
            _ => None,
        }
    }

    pub fn as_bool(&self) -> (r: Option<bool>)
        ensures
            r == self.spec_as_bool(),
    {
        match self {
            JsonValue::Bool(b) => Some(*b),
            _ => None,
        }
    }
}

/// ASCII decimal digits of `n`, most significant first.
pub open spec fn decimal_bytes(n: nat) -> Seq<u8>
    decreases n,
{
    if n < 10 {
        seq![(48 + n) as u8]
    } else {
        decimal_bytes(n / 10).push((48 + n % 10) as u8)
    }
}

/// Lowercase hexadecimal digit for a value below 16.
pub open spec fn hex_digit(v: u8) -> u8 {
    if v < 10 {
        (48 + v) as u8
    } else {
        (87 + v) as u8
    }
}

/// How one byte of a string's UTF-8 form is written inside quotes.
pub open spec fn escape_byte(b: u8) -> Seq<u8> {
    if b == 0x22 {
        seq![0x5cu8, 0x22u8]
    } else if b == 0x5c {
        seq![0x5cu8, 0x5cu8]
    } else if b == 0x08 {
        seq![0x5cu8, 0x62u8]
    } else if b == 0x09 {
        seq![0x5cu8, 0x74u8]
    } else if b == 0x0a {
        seq![0x5cu8, 0x6eu8]
    } else if b == 0x0c {
        seq![0x5cu8, 0x66u8]
    } else if b == 0x0d {
        seq![0x5cu8, 0x72u8]
    } else if b < 0x20 {
        seq![0x5cu8, 0x75u8, 0x30u8, 0x30u8, hex_digit(b / 16), hex_digit(b % 16)]
    } else {
        seq![b]
    }
}

pub open spec fn escape_bytes(bs: Seq<u8>) -> Seq<u8>
    decreases bs.len(),
{
    if bs.len() == 0 {
        Seq::empty()
    } else {
        escape_bytes(bs.drop_last()) + escape_byte(bs.last())
    }
}

/// A quoted, escaped JSON string.
pub open spec fn string_bytes(s: Seq<char>) -> Seq<u8> {
    seq![0x22u8] + escape_bytes(encode_utf8(s)) + seq![0x22u8]
}

pub open spec fn number_bytes(n: JsonNumber) -> Seq<u8> {
    match n {
        JsonNumber::PosInt(u) => decimal_bytes(u as nat),
        JsonNumber::NegInt(i) => if i < 0 {
            seq![0x2du8] + decimal_bytes((-i) as nat)
        } else {
            decimal_bytes(i as nat)
        },
        JsonNumber::Float(t) => encode_utf8(t@),
    }
}

/// The compact serialization of a JSON value.
pub open spec fn value_bytes(v: JsonValue) -> Seq<u8>
    decreases v, 0nat,
{
    match v {
        JsonValue::Null => seq![0x6eu8, 0x75u8, 0x6cu8, 0x6cu8],
        JsonValue::Bool(b) => if b {
            seq![0x74u8, 0x72u8, 0x75u8, 0x65u8]
        } else {
            seq![0x66u8, 0x61u8, 0x6cu8, 0x73u8, 0x65u8]
        },
        JsonValue::Number(n) => number_bytes(n),
        JsonValue::String(s) => string_bytes(s@),
        JsonValue::Array(items) => seq![0x5bu8] + items_bytes(items@, items@.len()) + seq![0x5du8],
        JsonValue::Object(es) => seq![0x7bu8] + entries_bytes(es@, es@.len()) + seq![0x7du8],
    }
}

/// The first `n` items of an array, comma separated.
pub open spec fn items_bytes(items: Seq<JsonValue>, n: nat) -> Seq<u8>
    decreases items, n,
{
    if n == 0 || n > items.len() {
        Seq::empty()
    } else {
        let sep = if n > 1 { seq![0x2cu8] } else { Seq::empty() };
        items_bytes(items, (n - 1) as nat) + sep + value_bytes(items[n - 1])
    }
}

/// The first `n` entries of an object, comma separated.
pub open spec fn entries_bytes(es: Seq<(String, JsonValue)>, n: nat) -> Seq<u8>
    decreases es, n,
{
    if n == 0 || n > es.len() {
        Seq::empty()
    } else {
        let sep = if n > 1 { seq![0x2cu8] } else { Seq::empty() };
        entries_bytes(es, (n - 1) as nat) + sep + string_bytes(es[n - 1].0@) + seq![0x3au8]
            + value_bytes(es[n - 1].1)
    }
}

/// Appends the decimal digits of `n`.
pub fn write_decimal(out: &mut Vec<u8>, n: u64)
    ensures
        final(out)@ == old(out)@ + decimal_bytes(n as nat),
    decreases n,
{
    if n >= 10 {
        write_decimal(out, n / 10);
    }
    out.push(48u8 + (n % 10) as u8);
}

/// Appends the lowercase hex digit for `v` (below 16).
fn hex_digit_exec(v: u8) -> (r: u8)
    requires
        v < 16,
    ensures
        r == hex_digit(v),
{
    if v < 10 {
        48 + v
    } else {
        87 + v
    }
}

/// Appends the escaped form of `bs`.
pub fn write_escaped(out: &mut Vec<u8>, bs: &[u8])
    ensures
        final(out)@ == old(out)@ + escape_bytes(bs@),
{
    let mut i: usize = 0;
    while i < bs.len()
        invariant
            i <= bs@.len(),
            out@ == old(out)@ + escape_bytes(bs@.take(i as int)),
        decreases bs@.len() - i,
    {
        let b = bs[i];
        if b == 0x22 {
            out.push(0x5c);
            out.push(0x22);
        } else if b == 0x5c {
            out.push(0x5c);
            out.push(0x5c);
        } else if b == 0x08 {
            out.push(0x5c);
            out.push(0x62);
        } else if b == 0x09 {
            out.push(0x5c);
            out.push(0x74);
        } else if b == 0x0a {
            out.push(0x5c);
            out.push(0x6e);
        } else if b == 0x0c {
            out.push(0x5c);
            out.push(0x66);
        } else if b == 0x0d {
            out.push(0x5c);
            out.push(0x72);
        } else if b < 0x20 {
            out.push(0x5c);
            out.push(0x75);
            out.push(0x30);
            out.push(0x30);
            out.push(hex_digit_exec(b / 16));
            out.push(hex_digit_exec(b % 16));
        } else {
            out.push(b);
        }
        proof {
            let t = bs@.take(i as int + 1);
            assert(t.drop_last() =~= bs@.take(i as int));
            assert(t.last() == b);
            assert(escape_bytes(t) == escape_bytes(bs@.take(i as int)) + escape_byte(b));
        }
        i = i + 1;
    }
    proof {
        assert(bs@.take(bs@.len() as int) =~= bs@);
    }
}

/// Appends a quoted, escaped JSON string.
pub fn write_string(out: &mut Vec<u8>, s: &str)
    ensures
        final(out)@ == old(out)@ + string_bytes(s@),
{
    let bytes = s.as_bytes_vec();
    out.push(0x22);
    write_escaped(out, bytes.as_slice());
    out.push(0x22);
}

/// Appends the text form of a number.
pub fn write_number(out: &mut Vec<u8>, n: &JsonNumber)
    ensures
        final(out)@ == old(out)@ + number_bytes(*n),
{
    match n {
        JsonNumber::PosInt(u) => write_decimal(out, *u),
        JsonNumber::NegInt(i) => {
            if *i < 0 {
                out.push(0x2d);
                let mag: u64 = if *i == i64::MIN {
                    0x8000_0000_0000_0000u64
                } else {
                    (-*i) as u64
                };
                write_decimal(out, mag);
            } else {
                write_decimal(out, *i as u64);
            }
        },
        JsonNumber::Float(t) => {
            let mut b = t.as_str().as_bytes_vec();
            out.append(&mut b);
        },
    }
}

/// Appends the compact serialization of `v`.
pub fn write_value(out: &mut Vec<u8>, v: &JsonValue)
    ensures
        final(out)@ == old(out)@ + value_bytes(*v),
    decreases v,
{
    match v {
        JsonValue::Null => {
            out.push(0x6e);
            out.push(0x75);
            out.push(0x6c);
            out.push(0x6c);
        },
        JsonValue::Bool(b) => {
            if *b {
                out.push(0x74);
                out.push(0x72);
                out.push(0x75);
                out.push(0x65);
            } else {
                out.push(0x66);
                out.push(0x61);
                out.push(0x6c);
                out.push(0x73);
                out.push(0x65);
            }
        },
        JsonValue::Number(n) => write_number(out, n),
        JsonValue::String(s) => write_string(out, s.as_str()),
        JsonValue::Array(items) => {
            let ghost start = out@;
            out.push(0x5b);
            let mut i: usize = 0;
            while i < items.len()
                invariant
                    i <= items@.len(),
                    *v == JsonValue::Array(*items),
                    out@ == start + seq![0x5bu8] + items_bytes(items@, i as nat),
                decreases items@.len() - i,
            {
                if i > 0 {
                    out.push(0x2c);
                }
                proof {
                    assert(decreases_to!(*v => (*v)->Array_0));
                    assert(decreases_to!(*items => items@));
                    assert(decreases_to!(items@ => items@[i as int]));
                    assert(decreases_to!(*v => items@[i as int]));
                }
                write_value(out, &items[i]);
                i = i + 1;
            }
            out.push(0x5d);
        },
        JsonValue::Object(es) => {
            let ghost start = out@;
            out.push(0x7b);
            let mut i: usize = 0;
            while i < es.len()
                invariant
                    i <= es@.len(),
                    *v == JsonValue::Object(*es),
                    out@ == start + seq![0x7bu8] + entries_bytes(es@, i as nat),
                decreases es@.len() - i,
            {
                if i > 0 {
                    out.push(0x2c);
                }
                write_string(out, es[i].0.as_str());
                out.push(0x3a);
                proof {
                    assert(decreases_to!(*v => (*v)->Object_0));
                    assert(decreases_to!(*es => es@));
                    assert(decreases_to!(es@ => es@[i as int]));
                    assert(decreases_to!(es@[i as int] => es@[i as int].1));
                    assert(decreases_to!(*v => es@[i as int].1));
                }
                write_value(out, &es[i].1);
                i = i + 1;
            }
            out.push(0x7d);
        },
    }
}

/// The compact serialization of `v` as bytes.
pub fn to_bytes(v: &JsonValue) -> (r: Vec<u8>)
    ensures
        r@ == value_bytes(*v),
{
    let mut out: Vec<u8> = Vec::new();
    write_value(&mut out, v);
    proof {
        assert(out@ =~= value_bytes(*v));
    }
    out
}

/// The mathematical form of a JSON number.
pub enum JsonNumberView {
    PosInt(u64),
    NegInt(i64),
    Float(Seq<char>),
}

/// The mathematical form of a JSON value: strings as character sequences.
pub enum JsonView {
    Null,
    Bool(bool),
    Number(JsonNumberView),
    String(Seq<char>),
    Array(Seq<JsonView>),
    Object(Seq<(Seq<char>, JsonView)>),
}

pub open spec fn number_view(n: JsonNumber) -> JsonNumberView {
    match n {
        JsonNumber::PosInt(u) => JsonNumberView::PosInt(u),
        JsonNumber::NegInt(i) => JsonNumberView::NegInt(i),
        JsonNumber::Float(t) => JsonNumberView::Float(t@),
    }
}

pub open spec fn json_view(v: JsonValue) -> JsonView
    decreases v, 0nat,
{
    match v {
        JsonValue::Null => JsonView::Null,
        JsonValue::Bool(b) => JsonView::Bool(b),
        JsonValue::Number(n) => JsonView::Number(number_view(n)),
        JsonValue::String(s) => JsonView::String(s@),
        JsonValue::Array(items) => JsonView::Array(items_view(items@, items@.len())),
        JsonValue::Object(es) => JsonView::Object(entries_view(es@, es@.len())),
    }
}

/// Views of the first `n` items.
pub open spec fn items_view(items: Seq<JsonValue>, n: nat) -> Seq<JsonView>
    decreases items, n,
{
    if n == 0 || n > items.len() {
        Seq::empty()
    } else {
        items_view(items, (n - 1) as nat).push(json_view(items[n - 1]))
    }
}

/// Views of the first `n` entries.
pub open spec fn entries_view(es: Seq<(String, JsonValue)>, n: nat) -> Seq<(Seq<char>, JsonView)>
    decreases es, n,
{
    if n == 0 || n > es.len() {
        Seq::empty()
    } else {
        entries_view(es, (n - 1) as nat).push((es[n - 1].0@, json_view(es[n - 1].1)))
    }
}

impl View for JsonValue {
    type V = JsonView;

    open spec fn view(&self) -> JsonView {
        json_view(*self)
    }
}

pub proof fn lemma_items_view_len(items: Seq<JsonValue>, n: nat)
    requires
        n <= items.len(),
    ensures
        items_view(items, n).len() == n,
        forall|i: int| 0 <= i < n ==> #[trigger] items_view(items, n)[i] == json_view(items[i]),
    decreases n,
{
    if n > 0 {
        lemma_items_view_len(items, (n - 1) as nat);
    }
}

pub proof fn lemma_entries_view_len(es: Seq<(String, JsonValue)>, n: nat)
    requires
        n <= es.len(),
    ensures
        entries_view(es, n).len() == n,
        forall|i: int|
            0 <= i < n ==> #[trigger] entries_view(es, n)[i] == (es[i].0@, json_view(es[i].1)),
    decreases n,
{
    if n > 0 {
        lemma_entries_view_len(es, (n - 1) as nat);
    }
}

/// A copy of a JSON value, equal to it in every part.
pub fn copy_value(v: &JsonValue) -> (r: JsonValue)
    ensures
        r@ == v@,
    decreases v,
{
    match v {
        JsonValue::Null => JsonValue::Null,
        JsonValue::Bool(b) => JsonValue::Bool(*b),
        JsonValue::Number(n) => JsonValue::Number(
            match n {
                JsonNumber::PosInt(u) => JsonNumber::PosInt(*u),
                JsonNumber::NegInt(i) => JsonNumber::NegInt(*i),
                JsonNumber::Float(t) => JsonNumber::Float(t.clone()),
            },
        ),
        JsonValue::String(s) => JsonValue::String(s.clone()),
        JsonValue::Array(items) => {
            let mut out: Vec<JsonValue> = Vec::new();
            let mut i: usize = 0;
            while i < items.len()
                invariant
                    i <= items@.len(),
                    *v == JsonValue::Array(*items),
                    out@.len() == i,
                    forall|j: int| 0 <= j < i ==> (#[trigger] out@[j])@ == items@[j]@,
                decreases items@.len() - i,
            {
                proof {
                    assert(decreases_to!(*v => (*v)->Array_0));
                    assert(decreases_to!(*items => items@));
                    assert(decreases_to!(items@ => items@[i as int]));
                    assert(decreases_to!(*v => items@[i as int]));
                }
                let c = copy_value(&items[i]);
                out.push(c);
                i = i + 1;
            }
            proof {
                lemma_items_view_len(items@, items@.len());
                lemma_items_view_len(out@, out@.len());
                assert(items_view(out@, out@.len()) =~= items_view(items@, items@.len()));
            }
            JsonValue::Array(out)
        },
        JsonValue::Object(es) => {
            let mut out: Vec<(String, JsonValue)> = Vec::new();
            let mut i: usize = 0;
            while i < es.len()
                invariant
                    i <= es@.len(),
                    *v == JsonValue::Object(*es),
                    out@.len() == i,
                    forall|j: int|
                        0 <= j < i ==> (#[trigger] out@[j]).0@ == es@[j].0@ && out@[j].1@
                            == es@[j].1@,
                decreases es@.len() - i,
            {
                proof {
                    assert(decreases_to!(*v => (*v)->Object_0));
                    assert(decreases_to!(*es => es@));
                    assert(decreases_to!(es@ => es@[i as int]));
                    assert(decreases_to!(es@[i as int] => es@[i as int].1));
                    assert(decreases_to!(*v => es@[i as int].1));
                }
                let c = copy_value(&es[i].1);
                out.push((es[i].0.clone(), c));
                i = i + 1;
            }
            proof {
                lemma_entries_view_len(es@, es@.len());
                lemma_entries_view_len(out@, out@.len());
                assert(entries_view(out@, out@.len()) =~= entries_view(es@, es@.len()));
            }
            JsonValue::Object(out)
        },
    }
}

/// A JSON string holding `s`.
pub fn json_str(s: &str) -> (r: JsonValue)
    ensures
        r@ == JsonView::String(s@),
{
    JsonValue::String(String::from_str(s))
}

/// A JSON number holding a signed integer (non-negative values use the
/// unsigned form, as JSON libraries do).
pub fn json_i64(n: i64) -> (r: JsonValue)
    ensures
        r@ == JsonView::Number(i64_number_view(n)),
{
    if n < 0 {
        JsonValue::Number(JsonNumber::NegInt(n))
    } else {
        JsonValue::Number(JsonNumber::PosInt(n as u64))
    }
}

pub open spec fn i64_number_view(n: i64) -> JsonNumberView {
    if n < 0 {
        JsonNumberView::NegInt(n)
    } else {
        JsonNumberView::PosInt(n as u64)
    }
}

/// A JSON number holding an unsigned integer.
pub fn json_u64(n: u64) -> (r: JsonValue)
    ensures
        r@ == JsonView::Number(JsonNumberView::PosInt(n)),
{
    JsonValue::Number(JsonNumber::PosInt(n))
}

/// An object entry with the given key.
pub fn entry(key: &str, v: JsonValue) -> (r: (String, JsonValue))
    ensures
        r.0@ == key@,
        r.1 == v,
{
    (String::from_str(key), v)
}

/// An object from its entries, in the order given.
pub fn json_object(es: Vec<(String, JsonValue)>) -> (r: JsonValue)
    ensures
        r@ == JsonView::Object(Seq::new(es@.len(), |i: int| (es@[i].0@, es@[i].1@))),
{
    proof {
        lemma_entries_view_len(es@, es@.len());
        assert(entries_view(es@, es@.len()) =~= Seq::new(
            es@.len(),
            |i: int| (es@[i].0@, es@[i].1@),
        ));
    }
    JsonValue::Object(es)
}

/// An object with two entries.
pub fn json_object2(a: (String, JsonValue), b: (String, JsonValue)) -> (r: JsonValue)
    ensures
        r@ == JsonView::Object(seq![(a.0@, a.1@), (b.0@, b.1@)]),
{
    let ghost va = (a.0@, a.1@);
    let ghost vb = (b.0@, b.1@);
    let es = vec![a, b];
    let r = json_object(es);
    proof {
        assert(Seq::new(es@.len(), |i: int| (es@[i].0@, es@[i].1@)) =~= seq![va, vb]);
    }
    r
}

/// An object with three entries.
pub fn json_object3(a: (String, JsonValue), b: (String, JsonValue), c: (String, JsonValue)) -> (r:
    JsonValue)
    ensures
        r@ == JsonView::Object(seq![(a.0@, a.1@), (b.0@, b.1@), (c.0@, c.1@)]),
{
    let ghost va = (a.0@, a.1@);
    let ghost vb = (b.0@, b.1@);
    let ghost vc = (c.0@, c.1@);
    let es = vec![a, b, c];
    let r = json_object(es);
    proof {
        assert(Seq::new(es@.len(), |i: int| (es@[i].0@, es@[i].1@)) =~= seq![va, vb, vc]);
    }
    r
}

/// An object with four entries.
pub fn json_object4(
    a: (String, JsonValue),
    b: (String, JsonValue),
    c: (String, JsonValue),
    d: (String, JsonValue),
) -> (r: JsonValue)
    ensures
        r@ == JsonView::Object(seq![(a.0@, a.1@), (b.0@, b.1@), (c.0@, c.1@), (d.0@, d.1@)]),
{
    let ghost va = (a.0@, a.1@);
    let ghost vb = (b.0@, b.1@);
    let ghost vc = (c.0@, c.1@);
    let ghost vd = (d.0@, d.1@);
    let es = vec![a, b, c, d];
    let r = json_object(es);
    proof {
        assert(Seq::new(es@.len(), |i: int| (es@[i].0@, es@[i].1@)) =~= seq![va, vb, vc, vd]);
    }
    r
}

/// An object with five entries.
pub fn json_object5(
    a: (String, JsonValue),
    b: (String, JsonValue),
    c: (String, JsonValue),
    d: (String, JsonValue),
    e: (String, JsonValue),
) -> (r: JsonValue)
    ensures
        r@ == JsonView::Object(
            seq![(a.0@, a.1@), (b.0@, b.1@), (c.0@, c.1@), (d.0@, d.1@), (e.0@, e.1@)],
        ),
{
    let ghost va = (a.0@, a.1@);
    let ghost vb = (b.0@, b.1@);
    let ghost vc = (c.0@, c.1@);
    let ghost vd = (d.0@, d.1@);
    let ghost ve = (e.0@, e.1@);
    let es = vec![a, b, c, d, e];
    let r = json_object(es);
    proof {
        assert(Seq::new(es@.len(), |i: int| (es@[i].0@, es@[i].1@)) =~= seq![va, vb, vc, vd, ve]);
    }
    r
}

/// Whether `a` sorts before `b`, comparing code points from the start (a
/// proper prefix sorts first).
pub open spec fn text_lt(a: Seq<char>, b: Seq<char>) -> bool {
    (exists|i: int|
        0 <= i < a.len() && i < b.len() && a.take(i) == b.take(i) && (a[i] as u32) < (
        #[trigger] b[i] as u32)) || (a.len() < b.len() && b.take(a.len() as int) == a)
}

/// Whether `a` sorts before `b` by code points.
pub fn str_lt(a: &str, b: &str) -> (r: bool)
    ensures
        r == text_lt(a@, b@),
{
    let ca = crate::text::chars_of(a);
    let cb = crate::text::chars_of(b);
    let mut i: usize = 0;
    while i < ca.len() && i < cb.len()
        invariant
            ca@ == a@,
            cb@ == b@,
            i <= ca@.len(),
            i <= cb@.len(),
            a@.take(i as int) == b@.take(i as int),
        decreases ca@.len() - i,
    {
        if ca[i] != cb[i] {
            let lt = (ca[i] as u32) < (cb[i] as u32);
            proof {
                if !lt {
                    assert forall|j: int|
                        0 <= j < a@.len() && j < b@.len() && a@.take(j) == b@.take(j) implies !((
                        a@[j] as u32) < (#[trigger] b@[j] as u32)) by {
                        if j < i {
                            assert(a@.take(i as int)[j] == b@.take(i as int)[j]);
                        } else if j > i {
                            assert(a@.take(j)[i as int] == b@.take(j)[i as int]);
                        }
                    }
                    if a@.len() < b@.len() && b@.take(a@.len() as int) == a@ {
                        assert(b@.take(a@.len() as int)[i as int] == a@[i as int]);
                    }
                }
            }
            return lt;
        }
        proof {
            assert(a@.take(i + 1) =~= a@.take(i as int).push(a@[i as int]));
            assert(b@.take(i + 1) =~= b@.take(i as int).push(b@[i as int]));
        }
        i = i + 1;
    }
    proof {
        if i == a@.len() {
            assert(a@.take(i as int) =~= a@);
        }
        if i == b@.len() {
            assert(b@.take(i as int) =~= b@);
        }
        assert forall|j: int|
            0 <= j < a@.len() && j < b@.len() && a@.take(j) == b@.take(j) implies !((a@[j] as u32) < (
            #[trigger] b@[j] as u32)) by {
            assert(a@.take(i as int)[j] == b@.take(i as int)[j]);
        }
    }
    ca.len() < cb.len()
}

pub proof fn lemma_first_key_index_at(es: Seq<(String, JsonValue)>, key: Seq<char>, from: int, i: int)
    requires
        0 <= from <= i < es.len(),
        es[i].0@ == key,
        forall|j: int| from <= j < i ==> (#[trigger] es[j]).0@ != key,
    ensures
        first_key_index(es, key, from) == i,
    decreases i - from,
{
    if from < i {
        lemma_first_key_index_at(es, key, from + 1, i);
    }
}

/// The value of the first entry with the key, if any.
pub open spec fn entry_value(es: Seq<(String, JsonValue)>, key: Seq<char>) -> Option<JsonValue> {
    let i = first_key_index(es, key, 0);
    if i >= 0 {
        Some(es[i].1)
    } else {
        None
    }
}

proof fn lemma_first_key_index_prefix(a: Seq<(String, JsonValue)>, b: Seq<(String, JsonValue)>, key: Seq<char>, from: int)
    requires
        0 <= from <= a.len(),
    ensures
        first_key_index(a, key, from) >= 0 ==> first_key_index(a + b, key, from) == first_key_index(a, key, from),
        first_key_index(a, key, from) < 0 ==> first_key_index(a + b, key, from) == first_key_index(
            a + b,
            key,
            a.len() as int,
        ),
    decreases a.len() - from,
{
    if from < a.len() {
        assert((a + b)[from] == a[from]);
        lemma_first_key_index_prefix(a, b, key, from + 1);
    }
}

proof fn lemma_first_key_index_suffix(a: Seq<(String, JsonValue)>, b: Seq<(String, JsonValue)>, key: Seq<char>, j: int)
    requires
        0 <= j <= b.len(),
    ensures
        first_key_index(b, key, j) >= 0 ==> first_key_index(a + b, key, a.len() + j) == a.len()
            + first_key_index(b, key, j),
        first_key_index(b, key, j) < 0 ==> first_key_index(a + b, key, a.len() + j) < 0,
    decreases b.len() - j,
{
    if j < b.len() {
        assert((a + b)[a.len() + j] == b[j]);
        lemma_first_key_index_suffix(a, b, key, j + 1);
    }
}

/// Looking a key up in two sequences joined: the first, else the second.
proof fn lemma_entry_value_concat(a: Seq<(String, JsonValue)>, b: Seq<(String, JsonValue)>, key: Seq<char>)
    ensures
        entry_value(a + b, key) == (if entry_value(a, key) is Some {
            entry_value(a, key)
        } else {
            entry_value(b, key)
        }),
{
    lemma_first_key_index_prefix(a, b, key, 0);
    lemma_first_key_index_suffix(a, b, key, 0);
    lemma_first_key_index_range(a, key, 0);
    lemma_first_key_index_range(b, key, 0);
    if first_key_index(b, key, 0) >= 0 {
        assert((a + b)[a.len() + first_key_index(b, key, 0)] == b[first_key_index(b, key, 0)]);
    }
}

/// Inserting or replacing an entry under another key leaves a lookup as it was.
proof fn lemma_entry_value_splice(
    es: Seq<(String, JsonValue)>,
    i: int,
    drop: int,
    e: (String, JsonValue),
    key: Seq<char>,
)
    requires
        0 <= i,
        0 <= drop <= 1,
        i + drop <= es.len(),
        e.0@ != key,
        drop == 1 ==> es[i].0@ != key,
    ensures
        entry_value(es.take(i) + seq![e] + es.skip(i + drop), key) == entry_value(es, key),
{
    let a = es.take(i);
    let m = es.subrange(i, i + drop);
    let c = es.skip(i + drop);
    assert(es =~= a + (m + c));
    lemma_entry_value_concat(a, m + c, key);
    lemma_entry_value_concat(m, c, key);
    lemma_entry_value_concat(a + seq![e], c, key);
    lemma_entry_value_concat(a, seq![e], key);
    reveal_with_fuel(first_key_index, 3);
    assert(entry_value(seq![e], key) is None);
    assert(entry_value(m, key) is None);
}

/// Sets `key` in an object to `value`: replaces the first entry with that
/// key, or else inserts a new entry before the first key that sorts after it.
pub fn insert_key(obj: JsonValue, key: &str, value: JsonValue) -> (r: JsonValue)
    requires
        obj is Object,
    ensures
        r is Object,
        r.spec_get(key@) == Some(value),
        forall|k: Seq<char>| k != key@ ==> r.spec_get(k) == obj.spec_get(k),
{
    let ghost vv = value;
    match obj {
        JsonValue::Object(es) => {
            let ghost es0 = es@;
            let mut out: Vec<(String, JsonValue)> = Vec::new();
            let mut rest = es;
            let mut placed = false;
            let mut value_slot = Some(value);
            let ghost mut at: int = -1;
            let ghost mut drop: int = 0;
            let ghost mut e0: (String, JsonValue) = vstd::pervasive::arbitrary();
            proof {
                assert(out@ + rest@ =~= es0);
            }
            while rest.len() > 0
                invariant
                    placed <==> value_slot is None,
                    !placed ==> value_slot == Some(vv),
                    placed ==> 0 <= at < out@.len() && out@[at].0@ == key@ && out@[at].1 == vv
                        && forall|j: int| 0 <= j < at ==> (#[trigger] out@[j]).0@ != key@,
                    !placed ==> forall|j: int| 0 <= j < out@.len() ==> (#[trigger] out@[j]).0@ != key@,
                    !placed ==> out@ + rest@ == es0,
                    placed ==> 0 <= at && 0 <= drop <= 1 && at + drop <= es0.len() && e0.0@ == key@
                        && (drop == 1 ==> es0[at].0@ == key@) && out@ + rest@ == es0.take(at) + seq![e0]
                        + es0.skip(at + drop),
                decreases rest@.len(),
            {
                let ghost out_before = out@;
                let ghost rest_before = rest@;
                let (k, v) = rest.remove(0);
                proof {
                    assert(rest_before == seq![(k, v)] + rest@) by {
                        assert(rest_before =~= seq![(k, v)] + rest@);
                    }
                }
                if !placed && crate::text::str_eq(k.as_str(), key) {
                    let val = value_slot.take().unwrap();
                    proof {
                        at = out@.len() as int;
                        drop = 1;
                    }
                    out.push((k, val));
                    proof {
                        e0 = out@[at];
                        assert(es0 == out_before + seq![(k, v)] + rest@) by {
                            assert(es0 =~= out_before + (seq![(k, v)] + rest@));
                        }
                        assert(es0.take(at) =~= out_before);
                        assert(es0.skip(at + 1) =~= rest@);
                        assert(es0[at] == (k, v));
                        assert(out@ + rest@ =~= es0.take(at) + seq![e0] + es0.skip(at + drop));
                    }
                    placed = true;
                } else if !placed && str_lt(key, k.as_str()) {
                    let val = value_slot.take().unwrap();
                    proof {
                        at = out@.len() as int;
                        drop = 0;
                    }
                    out.push((String::from_str(key), val));
                    proof {
                        e0 = out@[at];
                    }
                    out.push((k, v));
                    proof {
                        assert(es0 == out_before + seq![(k, v)] + rest@) by {
                            assert(es0 =~= out_before + (seq![(k, v)] + rest@));
                        }
                        assert(es0.take(at) =~= out_before);
                        assert(es0.skip(at) =~= seq![(k, v)] + rest@);
                        assert(out@ + rest@ =~= es0.take(at) + seq![e0] + es0.skip(at + drop));
                    }
                    placed = true;
                } else {
                    out.push((k, v));
                    proof {
                        assert(out@ + rest@ =~= out_before + rest_before);
                    }
                }
            }
            if !placed {
                let val = value_slot.take().unwrap();
                proof {
                    at = out@.len() as int;
                    drop = 0;
                }
                out.push((String::from_str(key), val));
                proof {
                    e0 = out@[at];
                    assert(rest@.len() == 0);
                    assert(es0.take(at) =~= es0);
                    assert(es0.skip(at) =~= Seq::<(String, JsonValue)>::empty());
                    assert(out@ =~= es0.take(at) + seq![e0] + es0.skip(at + drop));
                }
            } else {
                proof {
                    assert(out@ + rest@ =~= out@);
                }
            }
            proof {
                lemma_first_key_index_at(out@, key@, 0, at);
                assert(out@ == es0.take(at) + seq![e0] + es0.skip(at + drop));
            }
            let r = JsonValue::Object(out);
            proof {
                assert forall|k: Seq<char>| k != key@ implies r.spec_get(k) == obj.spec_get(k) by {
                    lemma_entry_value_splice(es0, at, drop, e0, k);
                }
            }
            r
        },
        other => other,
    }
}

/// The JSON form of a list of strings.
pub open spec fn strings_view(v: Seq<String>) -> JsonView {
    JsonView::Array(Seq::new(v.len(), |i: int| JsonView::String(v[i]@)))
}

/// A JSON array of strings.
pub fn json_strings(v: &[String]) -> (r: JsonValue)
    ensures
        r@ == strings_view(v@),
{
    let mut items: Vec<JsonValue> = Vec::new();
    let mut i: usize = 0;
    while i < v.len()
        invariant
            i <= v@.len(),
            items@.len() == i,
            forall|k: int| 0 <= k < i ==> (#[trigger] items@[k])@ == JsonView::String(v@[k]@),
        decreases v@.len() - i,
    {
        items.push(json_str(v[i].as_str()));
        i = i + 1;
    }
    proof {
        lemma_items_view_len(items@, items@.len());
        assert(items_view(items@, items@.len()) =~= strings_view(v@)->Array_0);
    }
    JsonValue::Array(items)
}

/// The JSON form of an optional integer (null when absent).
pub open spec fn opt_i64_view(o: Option<i64>) -> JsonView {
    match o {
        Some(n) => JsonView::Number(i64_number_view(n)),
        None => JsonView::Null,
    }
}

/// An optional integer as JSON.
pub fn json_opt_i64(o: Option<i64>) -> (r: JsonValue)
    ensures
        r@ == opt_i64_view(o),
{
    match o {
        Some(n) => json_i64(n),
        None => JsonValue::Null,
    }
}

/// The JSON form of an optional string (null when absent).
pub open spec fn opt_str_view(o: Option<String>) -> JsonView {
    match o {
        Some(s) => JsonView::String(s@),
        None => JsonView::Null,
    }
}

/// An optional string as JSON.
pub fn json_opt_str(o: &Option<String>) -> (r: JsonValue)
    ensures
        r@ == opt_str_view(*o),
{
    match o {
        Some(s) => json_str(s.as_str()),
        None => JsonValue::Null,
    }
}

} // verus!


