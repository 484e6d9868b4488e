//! A JSON value model: the values that the WeCom tools exchange, read by
//! key, built, and written out in the compact form of `serde_json`.
use vstd::prelude::*;

use crate::text::{chars_of, copy_string, decimal, digit_char, push_decimal, string_from};

verus! {

/// A JSON number, as `serde_json` keeps it: a non-negative integer, a
/// negative integer, or any other number, held by its text.
#[derive(Debug, Clone, PartialEq)]
pub enum JsonNumber {
    PosInt(u64),
    NegInt(i64),
    Float(String),
}

/// A JSON value. Object entries keep the order in which `serde_json`
/// walks its maps when they keep insertion order, each key once.
#[derive(Debug)]
pub enum JsonValue {
    Null,
    Bool(bool),
    Number(JsonNumber),
    Str(String),
    Array(Vec<JsonValue>),
    Object(Vec<(String, JsonValue)>),
}

/// The mathematical form of a JSON number.
pub enum NumView {
    PosInt(u64),
    NegInt(i64),
    Float(Seq<char>),
}

/// The mathematical form of a JSON value.
pub enum JsonView {
    Null,
    Bool(bool),
    Number(NumView),
    Str(Seq<char>),
    Array(Seq<JsonView>),
    Object(Seq<(Seq<char>, JsonView)>),
}

/// The mathematical form of a number.
pub open spec fn num_view(n: JsonNumber) -> NumView {
    match n {
        JsonNumber::PosInt(u) => NumView::PosInt(u),
        JsonNumber::NegInt(i) => NumView::NegInt(i),
        JsonNumber::Float(s) => NumView::Float(s@),
    }
}

/// The mathematical form of a value.
pub open spec fn jview(v: JsonValue) -> JsonView
    decreases v, 0int,
{
    match v {
        JsonValue::Null => JsonView::Null,
        JsonValue::Bool(b) => JsonView::Bool(b),
        JsonValue::Number(n) => JsonView::Number(num_view(n)),
        JsonValue::Str(s) => JsonView::Str(s@),
        JsonValue::Array(items) => JsonView::Array(items_view(items@, items@.len() as int)),
        JsonValue::Object(entries) => JsonView::Object(
            entries_view(entries@, entries@.len() as int),
        ),
    }
}

/// The mathematical form of the first `n` items.
pub open spec fn items_view(items: Seq<JsonValue>, n: int) -> Seq<JsonView>
    decreases items, n,
{
    if n <= 0 || n > items.len() {
        seq![]
    } else {
        items_view(items, n - 1).push(jview(items[n - 1]))
    }
}

/// The mathematical form of the first `n` entries.
pub open spec fn entries_view(entries: Seq<(String, JsonValue)>, n: int) -> Seq<
    (Seq<char>, JsonView),
>
    decreases entries, n,
{
    if n <= 0 || n > entries.len() {
        seq![]
    } else {
        entries_view(entries, n - 1).push((entries[n - 1].0@, jview(entries[n - 1].1)))
    }
}


/// Lemma: the form of the first `n` items, item by item.
pub proof fn lemma_items_view(items: Seq<JsonValue>, n: int)
    requires
        0 <= n <= items.len(),
    ensures
        items_view(items, n).len() == n,
        forall|i: int| 0 <= i < n ==> #[trigger] items_view(items, n)[i] == jview(items[i]),
    decreases n,
{
    if n > 0 {
        lemma_items_view(items, n - 1);
    }
}

/// Lemma: the form of the first `n` entries, entry by entry.
pub proof fn lemma_entries_view(entries: Seq<(String, JsonValue)>, n: int)
    requires
        0 <= n <= entries.len(),
    ensures
        entries_view(entries, n).len() == n,
        forall|i: int|
            0 <= i < n ==> #[trigger] entries_view(entries, n)[i] == (
                entries[i].0@,
                jview(entries[i].1),
            ),
    decreases n,
{
    if n > 0 {
        lemma_entries_view(entries, n - 1);
    }
}

/// Index of the first entry with key `key`, or the number of entries.
pub open spec fn find_key(es: Seq<(Seq<char>, JsonView)>, key: Seq<char>) -> int
    decreases es.len(),
{
    if es.len() == 0 {
        0
    } else if es[0].0 == key {
        0
    } else {
        1 + find_key(es.drop_first(), key)
    }
}

/// Lemma: the first entry with a key is unique.
pub proof fn lemma_find_key_at(es: Seq<(Seq<char>, JsonView)>, key: Seq<char>, k: int)
    requires
        0 <= k <= es.len(),
        forall|j: int| 0 <= j < k ==> es[j].0 != key,
        k == es.len() || es[k].0 == key,
    ensures
        find_key(es, key) == k,
    decreases k,
{
    if k > 0 {
        assert(es[0].0 != key);
        let t = es.drop_first();
        assert forall|j: int| 0 <= j < k - 1 implies t[j].0 != key by {
            assert(t[j] == es[j + 1]);
        }
        if k < es.len() {
            assert(t[k - 1] == es[k]);
        }
        lemma_find_key_at(t, key, k - 1);
    }
}

/// The value of the first entry with key `key`.
pub open spec fn entries_get(es: Seq<(Seq<char>, JsonView)>, key: Seq<char>) -> Option<JsonView> {
    let i = find_key(es, key);
    if 0 <= i < es.len() {
        Some(es[i].1)
    } else {
        None
    }
}

/// The value under `key` of an object (`Value::get`); `None` for other
/// values and absent keys.
pub open spec fn view_get(v: JsonView, key: Seq<char>) -> Option<JsonView> {
    match v {
        JsonView::Object(es) => entries_get(es, key),
        _ => None,
    }
}

/// The value reached by following the object keys `path` from `v`.
pub open spec fn view_path(v: JsonView, path: Seq<Seq<char>>) -> Option<JsonView>
    decreases path.len(),
{
    if path.len() == 0 {
        Some(v)
    } else {
        match view_get(v, path[0]) {
            Some(w) => view_path(w, path.drop_first()),
            None => None,
        }
    }
}

/// The string an optional value holds, if it holds one.
pub open spec fn view_str(v: Option<JsonView>) -> Option<Seq<char>> {
    match v {
        Some(JsonView::Str(s)) => Some(s),
        _ => None,
    }
}

/// The integer an optional value holds as an `i64`, if any (`Value::as_i64`).
pub open spec fn view_i64(v: Option<JsonView>) -> Option<i64> {
    match v {
        Some(JsonView::Number(NumView::PosInt(u))) => if u <= i64::MAX {
            Some(u as i64)
        } else {
            None
        },
        Some(JsonView::Number(NumView::NegInt(i))) => Some(i),
        _ => None,
    }
}

/// The boolean an optional value holds, if it holds one.
pub open spec fn view_bool(v: Option<JsonView>) -> Option<bool> {
    match v {
        Some(JsonView::Bool(b)) => Some(b),
        _ => None,
    }
}

impl JsonValue {
    /// The value under `key` of an object.
    pub fn get(&self, key: &str) -> (r: Option<&JsonValue>)
        ensures
            match r {
                Some(x) => view_get(jview(*self), key@) == Some(jview(*x)),
                None => view_get(jview(*self), key@) is None,
            },
    {
        match self {
            JsonValue::Object(entries) => {
                let ghost ev = entries_view(entries@, entries@.len() as int);
                proof {
                    lemma_entries_view(entries@, entries@.len() as int);
                }
                let k = chars_of(key);
                let mut i: usize = 0;
                while i < entries.len()
                    invariant
                        i <= entries.len(),
                        ev == entries_view(entries@, entries@.len() as int),
                        ev.len() == entries.len(),
                        forall|j: int|
                            0 <= j < entries.len() ==> #[trigger] ev[j] == (
                                entries@[j].0@,
                                jview(entries@[j].1),
                            ),
                        k@ == key@,
                        *self == JsonValue::Object(*entries),
                        jview(*self) == JsonView::Object(ev),
                        forall|j: int| 0 <= j < i ==> ev[j].0 != key@,
                    decreases entries.len() - i,
                {
                    assert(ev[i as int].0 == entries@[i as int].0@);
                    let ek = chars_of(entries[i].0.as_str());
                    if crate::text::chars_eq(&ek, &k) {
                        proof {
                            lemma_find_key_at(ev, key@, i as int);
                        }
                        assert(ev[i as int].1 == jview(entries@[i as int].1));
                        return Some(&entries[i].1);
                    }
                    i += 1;
                }
                proof {
                    lemma_find_key_at(ev, key@, ev.len() as int);
                }
                None
            },
            _ => None,
        }
    }

    /// The value under `k1`, then `k2`.
    pub fn get2(&self, k1: &str, k2: &str) -> (r: Option<&JsonValue>)
        ensures
            match r {
                Some(x) => view_path(jview(*self), seq![k1@, k2@]) == Some(jview(*x)),
                None => view_path(jview(*self), seq![k1@, k2@]) is None,
            },
    {
        let ghost p = seq![k1@, k2@];
        assert(p.drop_first() =~= seq![k2@]);
        assert(seq![k2@].drop_first() =~= Seq::<Seq<char>>::empty());
        assert(p[0] == k1@);
        assert(seq![k2@][0] == k2@);
        match self.get(k1) {
            Some(a) => {
                let r = a.get(k2);
                assert(view_path(jview(*a), seq![k2@]) == match view_get(jview(*a), k2@) {
                    Some(w) => view_path(w, seq![k2@].drop_first()),
                    None => None,
                });
                r
            },
            None => None,
        }
    }

    /// The string this value holds, if it is a string.
    pub fn as_str(&self) -> (r: Option<&String>)
        ensures
            match r {
                Some(s) => jview(*self) == JsonView::Str(s@),
                None => !(jview(*self) is Str),
            },
    {
        match self {
            JsonValue::Str(s) => Some(s),
            _ => None,
        }
    }

    /// The integer this value holds as an `i64`, if it can (`Value::as_i64`).
    pub fn as_i64(&self) -> (r: Option<i64>)
        ensures
            r == view_i64(Some(jview(*self))),
    {
        match self {
            JsonValue::Number(JsonNumber::PosInt(u)) => if *u <= 0x7FFF_FFFF_FFFF_FFFFu64 {
                Some(*u as i64)
            } else {
                None
            },
            JsonValue::Number(JsonNumber::NegInt(i)) => Some(*i),
            _ => None,
        }
    }

    /// The boolean this value holds, if it is one.
    pub fn as_bool(&self) -> (r: Option<bool>)
        ensures
            r == view_bool(Some(jview(*self))),
    {
        match self {
            JsonValue::Bool(b) => Some(*b),
            _ => None,
        }
    }

    /// The items of this value, if it is an array.
    pub fn as_array(&self) -> (r: Option<&Vec<JsonValue>>)
        ensures
            match r {
                Some(items) => jview(*self) == JsonView::Array(
                    items_view(items@, items@.len() as int),
                ),
                None => !(jview(*self) is Array),
            },
    {
        match self {
            JsonValue::Array(items) => Some(items),
            _ => None,
        }
    }

    /// A copy of this value.
    pub fn deep_copy(&self) -> (r: JsonValue)
        ensures
            jview(r) == jview(*self),
        decreases self,
    {
        match self {
            JsonValue::Null => JsonValue::Null,
            JsonValue::Bool(b) => JsonValue::Bool(*b),
            JsonValue::Number(JsonNumber::PosInt(u)) => JsonValue::Number(JsonNumber::PosInt(*u)),
            JsonValue::Number(JsonNumber::NegInt(i)) => JsonValue::Number(JsonNumber::NegInt(*i)),
            JsonValue::Number(JsonNumber::Float(s)) => JsonValue::Number(
                JsonNumber::Float(copy_string(s)),
            ),
            JsonValue::Str(s) => JsonValue::Str(copy_string(s)),
            JsonValue::Array(items) => {
                let mut out: Vec<JsonValue> = Vec::new();
                let mut i: usize = 0;
                while i < items.len()
                    invariant
                        i <= items.len(),
                        *self == JsonValue::Array(*items),
                        items_view(out@, out@.len() as int) == items_view(items@, i as int),
                        out@.len() == i,
                    decreases items.len() - i,
                {
                    assert(decreases_to!(*self => (*self)->Array_0));
                    assert(decreases_to!(*items => items@));
                    assert(decreases_to!(items@ => items@[i as int]));
                    let c = items[i].deep_copy();
                    let ghost before = out@;
                    out.push(c);
                    proof {
                        assert(out@.drop_last() == before);
                        lemma_items_view_prefix(out@, before);
                    }
                    i += 1;
                }
                JsonValue::Array(out)
            },
            JsonValue::Object(entries) => {
                let mut out: Vec<(String, JsonValue)> = Vec::new();
                let mut i: usize = 0;
                while i < entries.len()
                    invariant
                        i <= entries.len(),
                        *self == JsonValue::Object(*entries),
                        entries_view(out@, out@.len() as int) == entries_view(entries@, i as int),
                        out@.len() == i,
                    decreases entries.len() - i,
                {
                    assert(decreases_to!(*self => (*self)->Object_0));
                    assert(decreases_to!(*entries => entries@));
                    assert(decreases_to!(entries@ => entries@[i as int]));
                    assert(decreases_to!(entries@[i as int] => entries@[i as int].1));
                    let c = entries[i].1.deep_copy();
                    let k = copy_string(&entries[i].0);
                    let ghost before = out@;
                    out.push((k, c));
                    proof {
                        assert(out@.drop_last() == before);
                        lemma_entries_view_prefix(out@, before);
                    }
                    i += 1;
                }
                JsonValue::Object(out)
            },
        }
    }
}

/// Lemma: the form of a sequence of items extends that of its prefix.
pub proof fn lemma_items_view_prefix(a: Seq<JsonValue>, b: Seq<JsonValue>)
    requires
        a.len() == b.len() + 1,
        a.drop_last() == b,
    ensures
        items_view(a, a.len() as int) == items_view(b, b.len() as int).push(jview(a.last())),
{
    lemma_items_view_same(a, b, b.len() as int);
}

proof fn lemma_items_view_same(a: Seq<JsonValue>, b: Seq<JsonValue>, n: int)
    requires
        0 <= n <= b.len(),
        b.len() <= a.len(),
        forall|i: int| 0 <= i < b.len() ==> a[i] == b[i],
    ensures
        items_view(a, n) == items_view(b, n),
    decreases n,
{
    if n > 0 {
        lemma_items_view_same(a, b, n - 1);
    }
}

/// Lemma: the form of a sequence of entries extends that of its prefix.
pub proof fn lemma_entries_view_prefix(a: Seq<(String, JsonValue)>, b: Seq<(String, JsonValue)>)
    requires
        a.len() == b.len() + 1,
        a.drop_last() == b,
    ensures
        entries_view(a, a.len() as int) == entries_view(b, b.len() as int).push(
            (a.last().0@, jview(a.last().1)),
        ),
{
    lemma_entries_view_same(a, b, b.len() as int);
}

proof fn lemma_entries_view_same(a: Seq<(String, JsonValue)>, b: Seq<(String, JsonValue)>, n: int)
    requires
        0 <= n <= b.len(),
        b.len() <= a.len(),
        forall|i: int| 0 <= i < b.len() ==> a[i] == b[i],
    ensures
        entries_view(a, n) == entries_view(b, n),
    decreases n,
{
    if n > 0 {
        lemma_entries_view_same(a, b, n - 1);
    }
}


// ---------------------------------------------------------------------
// Compact JSON text, as `serde_json::to_string` writes it
// ---------------------------------------------------------------------

/// The lowercase hexadecimal digit of `d < 16`.
pub open spec fn hex_digit(d: nat) -> char {
    if d < 10 {
        digit_char(d)
    } else {
        (('a' as u32) + (d - 10)) as char
    }
}

/// How one character of a string is written inside JSON quotes.
pub open spec fn escape_char(c: char) -> Seq<char> {
    if c == '"' {
        seq!['\\', '"']
    } else if c == '\\' {
        seq!['\\', '\\']
    } else if c == '\n' {
        seq!['\\', 'n']
    } else if c == '\r' {
        seq!['\\', 'r']
    } else if c == '\t' {
        seq!['\\', 't']
    } else if c == '\u{8}' {
        seq!['\\', 'b']
    } else if c == '\u{c}' {
        seq!['\\', 'f']
    } else if (c as int) < 0x20 {
        seq!['\\', 'u', '0', '0', hex_digit(((c as int) / 16) as nat), hex_digit(((c as int) % 16) as nat)]
    } else {
        seq![c]
    }
}

/// The characters of `s`, each escaped.
pub open spec fn escape_str(s: Seq<char>) -> Seq<char>
    decreases s.len(),
{
    if s.len() == 0 {
        seq![]
    } else {
        escape_str(s.drop_last()) + escape_char(s.last())
    }
}

/// `s` as a JSON string literal.
pub open spec fn quoted(s: Seq<char>) -> Seq<char> {
    seq!['"'] + escape_str(s) + seq!['"']
}

/// The text of a number.
pub open spec fn num_text(n: NumView) -> Seq<char> {
    match n {
        NumView::PosInt(u) => decimal(u as nat),
        NumView::NegInt(i) => if i < 0 {
            seq!['-'] + decimal((-i) as nat)
        } else {
            decimal(i as nat)
        },
        NumView::Float(t) => t,
    }
}

/// The compact JSON text of a value.
pub open spec fn json_text(v: JsonView) -> Seq<char>
    decreases v, 0int,
{
    match v {
        JsonView::Null => seq!['n', 'u', 'l', 'l'],
        JsonView::Bool(b) => if b {
            seq!['t', 'r', 'u', 'e']
        } else {
            seq!['f', 'a', 'l', 's', 'e']
        },
        JsonView::Number(n) => num_text(n),
        JsonView::Str(s) => quoted(s),
        JsonView::Array(items) => seq!['['] + items_text(items, items.len() as int) + seq![']'],
        JsonView::Object(es) => seq!['{'] + entries_text(es, es.len() as int) + seq!['}'],
    }
}

/// The text of the first `n` items, separated by commas.
pub open spec fn items_text(items: Seq<JsonView>, n: int) -> Seq<char>
    decreases items, n,
{
    if n <= 0 || n > items.len() {
        seq![]
    } else if n == 1 {
        json_text(items[0])
    } else {
        items_text(items, n - 1) + seq![','] + json_text(items[n - 1])
    }
}

/// The text of the first `n` entries, separated by commas.
pub open spec fn entries_text(es: Seq<(Seq<char>, JsonView)>, n: int) -> Seq<char>
    decreases es, n,
{
    if n <= 0 || n > es.len() {
        seq![]
    } else if n == 1 {
        quoted(es[0].0) + seq![':'] + json_text(es[0].1)
    } else {
        entries_text(es, n - 1) + seq![','] + quoted(es[n - 1].0) + seq![':'] + json_text(
            es[n - 1].1,
        )
    }
}

fn hex_of(d: u32) -> (c: char)
    requires
        d < 16,
    ensures
        c == hex_digit(d as nat),
{
    let c = if d < 10 {
        crate::text::digit_of(d as u64)
    } else if d == 10 {
        'a'
    } else if d == 11 {
        'b'
    } else if d == 12 {
        'c'
    } else if d == 13 {
        'd'
    } else if d == 14 {
        'e'
    } else {
        'f'
    };
    c
}

fn push_escaped_char(out: &mut Vec<char>, c: char)
    ensures
        final(out)@ == old(out)@ + escape_char(c),
{
    let ghost o = out@;
    let n: u32 = c as u32;
    assert(n == c as int);
    if c == '"' {
        out.push('\\');
        out.push('"');
    } else if c == '\\' {
        out.push('\\');
        out.push('\\');
    } else if c == '\n' {
        out.push('\\');
        out.push('n');
    } else if c == '\r' {
        out.push('\\');
        out.push('r');
    } else if c == '\t' {
        out.push('\\');
        out.push('t');
    } else if c == '\u{8}' {
        out.push('\\');
        out.push('b');
    } else if c == '\u{c}' {
        out.push('\\');
        out.push('f');
    } else if n < 32 {
        out.push('\\');
        out.push('u');
        out.push('0');
        out.push('0');
        let h = hex_of(n / 16);
        out.push(h);
        let l = hex_of(n % 16);
        out.push(l);
    } else {
        out.push(c);
    }
    assert(out@ =~= o + escape_char(c));
}

/// Appends `s` as a JSON string literal.
pub fn push_quoted(out: &mut Vec<char>, s: &str)
    ensures
        final(out)@ == old(out)@ + quoted(s@),
{
    let cs = chars_of(s);
    out.push('"');
    let mut i: usize = 0;
    while i < cs.len()
        invariant
            i <= cs.len(),
            cs@ == s@,
            out@ == old(out)@ + seq!['"'] + escape_str(cs@.take(i as int)),
        decreases cs.len() - i,
    {
        let ghost before = out@;
        push_escaped_char(out, cs[i]);
        assert(cs@.take(i + 1).drop_last() =~= cs@.take(i as int));
        i += 1;
        assert(out@ =~= old(out)@ + seq!['"'] + escape_str(cs@.take(i as int)));
    }
    out.push('"');
    assert(cs@.take(cs.len() as int) =~= s@);
    assert(out@ =~= old(out)@ + quoted(s@));
}

fn push_number(out: &mut Vec<char>, n: &JsonNumber)
    ensures
        final(out)@ == old(out)@ + num_text(num_view(*n)),
{
    match n {
        JsonNumber::PosInt(u) => push_decimal(out, *u),
        JsonNumber::NegInt(i) => {
            if *i < 0 {
                out.push('-');
                let a: u64 = (-(*i as i128)) as u64;
                assert(a == -i);
                push_decimal(out, a);
                assert(out@ =~= old(out)@ + num_text(num_view(*n)));
            } else {
                push_decimal(out, *i as u64);
            }
        },
        JsonNumber::Float(t) => {
            let cs = chars_of(t.as_str());
            let mut i: usize = 0;
            while i < cs.len()
                invariant
                    i <= cs.len(),
                    out@ == old(out)@ + cs@.take(i as int),
                decreases cs.len() - i,
            {
                out.push(cs[i]);
                assert(cs@.take(i + 1) =~= cs@.take(i as int).push(cs@[i as int]));
                i += 1;
            }
            assert(cs@.take(cs.len() as int) =~= t@);
        },
    }
}

/// Appends the compact JSON text of `v`.
pub fn push_json(out: &mut Vec<char>, v: &JsonValue)
    ensures
        final(out)@ == old(out)@ + json_text(jview(*v)),
    decreases v,
{
    match v {
        JsonValue::Null => {
            out.push('n');
            out.push('u');
            out.push('l');
            out.push('l');
            assert(out@ =~= old(out)@ + json_text(jview(*v)));
        },
        JsonValue::Bool(b) => {
            if *b {
                out.push('t');
                out.push('r');
                out.push('u');
                out.push('e');
            } else {
                out.push('f');
                out.push('a');
                out.push('l');
                out.push('s');
                out.push('e');
            }
            assert(out@ =~= old(out)@ + json_text(jview(*v)));
        },
        JsonValue::Number(n) => push_number(out, n),
        JsonValue::Str(s) => push_quoted(out, s.as_str()),
        JsonValue::Array(items) => {
            let ghost iv = items_view(items@, items@.len() as int);
            proof {
                lemma_items_view(items@, items@.len() as int);
            }
            out.push('[');
            let mut i: usize = 0;
            while i < items.len()
                invariant
                    i <= items.len(),
                    *v == JsonValue::Array(*items),
                    iv == items_view(items@, items@.len() as int),
                    iv.len() == items.len(),
                    forall|j: int| 0 <= j < items.len() ==> #[trigger] iv[j] == jview(items@[j]),
                    out@ == old(out)@ + seq!['['] + items_text(iv, i as int),
                decreases items.len() - i,
            {
                assert(decreases_to!(*v => (*v)->Array_0));
                assert(decreases_to!(*items => items@));
                assert(decreases_to!(items@ => items@[i as int]));
                if i > 0 {
                    out.push(',');
                }
                push_json(out, &items[i]);
                assert(iv[i as int] == jview(items@[i as int]));
                i += 1;
                assert(out@ =~= old(out)@ + seq!['['] + items_text(iv, i as int));
            }
            out.push(']');
            assert(out@ =~= old(out)@ + json_text(jview(*v)));
        },
        JsonValue::Object(entries) => {
            let ghost ev = entries_view(entries@, entries@.len() as int);
            proof {
                lemma_entries_view(entries@, entries@.len() as int);
            }
            out.push('{');
            let mut i: usize = 0;
            while i < entries.len()
                invariant
                    i <= entries.len(),
                    *v == JsonValue::Object(*entries),
                    ev == entries_view(entries@, entries@.len() as int),
                    ev.len() == entries.len(),
                    forall|j: int|
                        0 <= j < entries.len() ==> #[trigger] ev[j] == (
                            entries@[j].0@,
                            jview(entries@[j].1),
                        ),
                    out@ == old(out)@ + seq!['{'] + entries_text(ev, i as int),
                decreases entries.len() - i,
            {
                assert(decreases_to!(*v => (*v)->Object_0));
                assert(decreases_to!(*entries => entries@));
                assert(decreases_to!(entries@ => entries@[i as int]));
                assert(decreases_to!(entries@[i as int] => entries@[i as int].1));
                if i > 0 {
                    out.push(',');
                }
                push_quoted(out, entries[i].0.as_str());
                out.push(':');
                push_json(out, &entries[i].1);
                assert(ev[i as int] == (entries@[i as int].0@, jview(entries@[i as int].1)));
                i += 1;
                assert(out@ =~= old(out)@ + seq!['{'] + entries_text(ev, i as int));
            }
            out.push('}');
            assert(out@ =~= old(out)@ + json_text(jview(*v)));
        },
    }
}

impl JsonValue {
    /// The compact JSON text of this value (`serde_json::to_string`).
    pub fn to_json_string(&self) -> (s: String)
        ensures
            s@ == json_text(jview(*self)),
    {
        let mut out: Vec<char> = Vec::new();
        push_json(&mut out, self);
        assert(out@ =~= json_text(jview(*self)));
        string_from(&out)
    }
}

// ---------------------------------------------------------------------
// Objects as maps in insertion order
// ---------------------------------------------------------------------

/// Whether no key occurs twice among an object's entries.
pub open spec fn keys_distinct(es: Seq<(Seq<char>, JsonView)>) -> bool {
    forall|i: int, j: int| 0 <= i < j < es.len() ==> #[trigger] es[i].0 != #[trigger] es[j].0
}

/// The entries after setting `k` to `v` (`Map::insert` of a map that
/// keeps insertion order): the entry with key `k` gets the value in its
/// place, or a new entry goes last.
pub open spec fn entries_insert(es: Seq<(Seq<char>, JsonView)>, k: Seq<char>, v: JsonView) -> Seq<
    (Seq<char>, JsonView),
> {
    let i = find_key(es, k);
    if 0 <= i < es.len() {
        es.update(i, (k, v))
    } else {
        es.push((k, v))
    }
}

/// The entries without the one with key `k` (`Map::remove` of a map that
/// keeps insertion order, which swaps the last entry into its place).
pub open spec fn entries_remove(es: Seq<(Seq<char>, JsonView)>, k: Seq<char>) -> Seq<
    (Seq<char>, JsonView),
> {
    let i = find_key(es, k);
    if 0 <= i < es.len() {
        if i == es.len() - 1 {
            es.drop_last()
        } else {
            es.update(i, es.last()).drop_last()
        }
    } else {
        es
    }
}

proof fn lemma_find_key(es: Seq<(Seq<char>, JsonView)>, key: Seq<char>)
    ensures
        0 <= find_key(es, key) <= es.len(),
        forall|j: int| 0 <= j < find_key(es, key) ==> es[j].0 != key,
        find_key(es, key) < es.len() ==> es[find_key(es, key)].0 == key,
    decreases es.len(),
{
    if es.len() > 0 && es[0].0 != key {
        lemma_find_key(es.drop_first(), key);
        assert forall|j: int| 0 <= j < find_key(es, key) implies es[j].0 != key by {
            if j > 0 {
                assert(es[j] == es.drop_first()[j - 1]);
            }
        }
    }
}

/// Setting a key keeps the keys of an object distinct.
pub proof fn lemma_entries_insert_distinct(es: Seq<(Seq<char>, JsonView)>, k: Seq<char>, v: JsonView)
    requires
        keys_distinct(es),
    ensures
        keys_distinct(entries_insert(es, k, v)),
        find_key(entries_insert(es, k, v), k) < entries_insert(es, k, v).len(),
{
    lemma_find_key(es, k);
    let i = find_key(es, k);
    let r = entries_insert(es, k, v);
    assert forall|a: int, b: int| 0 <= a < b < r.len() implies #[trigger] r[a].0 != #[trigger] r[b].0 by {
        if i < es.len() {
            assert(r[a].0 == es[a].0 && r[b].0 == es[b].0);
        } else if b < es.len() {
            assert(r[a] == es[a] && r[b] == es[b]);
        } else {
            assert(r[a] == es[a]);
        }
    }
    lemma_find_key(r, k);
    if i >= es.len() {
        assert(r[es.len() as int].0 == k);
        assert forall|j: int| 0 <= j < es.len() implies r[j].0 != k by {
            assert(r[j] == es[j]);
        }
        lemma_find_key_at(r, k, es.len() as int);
    } else {
        assert forall|j: int| 0 <= j < i implies r[j].0 != k by {
            assert(r[j] == es[j]);
        }
        lemma_find_key_at(r, k, i);
    }
}

/// Removing a key keeps the keys of an object distinct and leaves none
/// with that key.
pub proof fn lemma_entries_remove_distinct(es: Seq<(Seq<char>, JsonView)>, k: Seq<char>)
    requires
        keys_distinct(es),
    ensures
        keys_distinct(entries_remove(es, k)),
        forall|j: int| 0 <= j < entries_remove(es, k).len() ==> #[trigger] entries_remove(es, k)[j].0 != k,
{
    lemma_find_key(es, k);
    let i = find_key(es, k);
    let r = entries_remove(es, k);
    let n = es.len();
    if 0 <= i < n {
        assert forall|a: int| 0 <= a < r.len() implies #[trigger] r[a] == (if a == i {
            es[n - 1]
        } else {
            es[a]
        }) by {}
        assert forall|a: int, b: int| 0 <= a < b < r.len() implies #[trigger] r[a].0 != #[trigger] r[b].0 by {
            if a == i {
                assert(r[a] == es[n - 1] && r[b] == es[b]);
            } else if b == i {
                assert(r[a] == es[a] && r[b] == es[n - 1]);
            } else {
                assert(r[a] == es[a] && r[b] == es[b]);
            }
        }
        assert forall|j: int| 0 <= j < r.len() implies #[trigger] r[j].0 != k by {
            if j == i {
                assert(r[j] == es[n - 1]);
                assert(es[i].0 == k);
            } else if j < i {
                assert(r[j] == es[j]);
            } else {
                assert(r[j] == es[j]);
                assert(es[i].0 == k);
            }
        }
    }
}

/// The entries of an object as a sequence of forms.
pub open spec fn entries_of(v: Vec<(String, JsonValue)>) -> Seq<(Seq<char>, JsonView)> {
    entries_view(v@, v@.len() as int)
}

fn find_entry(entries: &Vec<(String, JsonValue)>, key: &str) -> (i: usize)
    ensures
        i as int == find_key(entries_of(*entries), key@),
{
    let ghost es = entries_of(*entries);
    proof {
        lemma_entries_view(entries@, entries@.len() as int);
    }
    let mut i: usize = 0;
    while i < entries.len()
        invariant
            i <= entries@.len(),
            es == entries_of(*entries),
            es.len() == entries@.len(),
            forall|j: int|
                0 <= j < entries@.len() ==> #[trigger] es[j] == (
                    entries@[j].0@,
                    jview(entries@[j].1),
                ),
            forall|j: int| 0 <= j < i ==> es[j].0 != key@,
        decreases entries@.len() - i,
    {
        assert(es[i as int].0 == entries@[i as int].0@);
        if crate::text::str_eq(entries[i].0.as_str(), key) {
            proof {
                lemma_find_key_at(es, key@, i as int);
            }
            return i;
        }
        i += 1;
    }
    proof {
        lemma_find_key_at(es, key@, es.len() as int);
    }
    i
}

/// Sets `key` to `value` in an object's entries (see [`entries_insert`]).
pub fn object_insert(entries: &mut Vec<(String, JsonValue)>, key: String, value: JsonValue)
    ensures
        entries_of(*final(entries)) == entries_insert(entries_of(*old(entries)), key@, jview(value)),
{
    let ghost es = entries_of(*entries);
    let ghost kv = key@;
    let ghost vv = jview(value);
    proof {
        lemma_entries_view(entries@, entries@.len() as int);
    }
    let i = find_entry(entries, key.as_str());
    let ghost e0 = entries@;
    if i < entries.len() {
        entries.set(i, (key, value));
        proof {
            lemma_entries_view(entries@, entries@.len() as int);
            assert(entries_of(*entries) =~= es.update(i as int, (kv, vv))) by {
                assert forall|j: int| 0 <= j < entries@.len() implies #[trigger] entries_of(
                    *entries,
                )[j] == es.update(i as int, (kv, vv))[j] by {
                    if j != i {
                        assert(entries@[j] == e0[j]);
                    }
                }
            }
        }
    } else {
        entries.push((key, value));
        proof {
            assert(entries@.drop_last() =~= e0);
            lemma_entries_view_prefix(entries@, e0);
        }
    }
}

/// Removes the entry with key `key`, if there is one (see
/// [`entries_remove`]).
pub fn object_remove(entries: &mut Vec<(String, JsonValue)>, key: &str)
    ensures
        entries_of(*final(entries)) == entries_remove(entries_of(*old(entries)), key@),
{
    let ghost es = entries_of(*entries);
    proof {
        lemma_entries_view(entries@, entries@.len() as int);
    }
    let i = find_entry(entries, key);
    if i >= entries.len() {
        return;
    }
    let ghost e0 = entries@;
    let last = entries.pop().unwrap();
    let ghost e1 = entries@;
    assert(e1 =~= e0.drop_last());
    if i < entries.len() {
        entries.set(i, last);
        proof {
            lemma_entries_view(entries@, entries@.len() as int);
            assert(entries_of(*entries) =~= es.update(i as int, es.last()).drop_last()) by {
                assert forall|j: int| 0 <= j < entries@.len() implies #[trigger] entries_of(
                    *entries,
                )[j] == es.update(i as int, es.last()).drop_last()[j] by {
                    if j != i {
                        assert(entries@[j] == e0[j]);
                    } else {
                        assert(entries@[j] == e0[e0.len() - 1]);
                    }
                }
            }
        }
    } else {
        proof {
            lemma_entries_view(entries@, entries@.len() as int);
            assert(entries_of(*entries) =~= es.drop_last()) by {
                assert forall|j: int| 0 <= j < entries@.len() implies #[trigger] entries_of(
                    *entries,
                )[j] == es.drop_last()[j] by {
                    assert(entries@[j] == e0[j]);
                }
            }
        }
    }
}

// ---------------------------------------------------------------------
// Pretty JSON text, as `serde_json::to_string_pretty` writes it
// ---------------------------------------------------------------------

/// The pretty JSON text of a value whose line starts with `ind`: arrays
/// and objects with one element per line, each nesting level indented by
/// two more spaces.
pub open spec fn pretty_text(v: JsonView, ind: Seq<char>) -> Seq<char>
    decreases v, 0int,
{
    match v {
        JsonView::Array(items) => if items.len() == 0 {
            seq!['[', ']']
        } else {
            seq!['['] + pretty_items(items, items.len() as int, ind) + seq!['\n'] + ind + seq![']']
        },
        JsonView::Object(es) => if es.len() == 0 {
            seq!['{', '}']
        } else {
            seq!['{'] + pretty_entries(es, es.len() as int, ind) + seq!['\n'] + ind + seq!['}']
        },
        _ => json_text(v),
    }
}

/// The pretty text of the first `n` items of an array whose line starts
/// with `ind`.
pub open spec fn pretty_items(items: Seq<JsonView>, n: int, ind: Seq<char>) -> Seq<char>
    decreases items, n,
{
    if n <= 0 || n > items.len() {
        seq![]
    } else {
        pretty_items(items, n - 1, ind) + (if n == 1 {
            seq!['\n']
        } else {
            seq![',', '\n']
        }) + ind + seq![' ', ' '] + pretty_text(items[n - 1], ind + seq![' ', ' '])
    }
}

/// The pretty text of the first `n` entries of an object whose line
/// starts with `ind`.
pub open spec fn pretty_entries(es: Seq<(Seq<char>, JsonView)>, n: int, ind: Seq<char>) -> Seq<char>
    decreases es, n,
{
    if n <= 0 || n > es.len() {
        seq![]
    } else {
        pretty_entries(es, n - 1, ind) + (if n == 1 {
            seq!['\n']
        } else {
            seq![',', '\n']
        }) + ind + seq![' ', ' '] + quoted(es[n - 1].0) + seq![':', ' '] + pretty_text(
            es[n - 1].1,
            ind + seq![' ', ' '],
        )
    }
}

/// Appends the pretty JSON text of `v`, its line starting with `ind`.
pub fn push_json_pretty(out: &mut Vec<char>, v: &JsonValue, ind: &Vec<char>)
    ensures
        final(out)@ == old(out)@ + pretty_text(jview(*v), ind@),
    decreases v,
{
    match v {
        JsonValue::Array(items) => {
            let ghost iv = items_view(items@, items@.len() as int);
            proof {
                lemma_items_view(items@, items@.len() as int);
            }
            if items.len() == 0 {
                out.push('[');
                out.push(']');
                assert(out@ =~= old(out)@ + pretty_text(jview(*v), ind@));
                return;
            }
            let mut inner = ind.clone();
            assert(inner@ == ind@);
            inner.push(' ');
            inner.push(' ');
            out.push('[');
            let mut i: usize = 0;
            while i < items.len()
                invariant
                    i <= items.len(),
                    *v == JsonValue::Array(*items),
                    inner@ == ind@ + seq![' ', ' '],
                    iv == items_view(items@, items@.len() as int),
                    iv.len() == items.len(),
                    forall|j: int| 0 <= j < items.len() ==> #[trigger] iv[j] == jview(items@[j]),
                    out@ == old(out)@ + seq!['['] + pretty_items(iv, i as int, ind@),
                decreases items.len() - i,
            {
                assert(decreases_to!(*v => (*v)->Array_0));
                assert(decreases_to!(*items => items@));
                assert(decreases_to!(items@ => items@[i as int]));
                if i > 0 {
                    out.push(',');
                }
                out.push('\n');
                crate::text::append_chars(out, &inner);
                push_json_pretty(out, &items[i], &inner);
                assert(iv[i as int] == jview(items@[i as int]));
                i += 1;
                assert(out@ =~= old(out)@ + seq!['['] + pretty_items(iv, i as int, ind@));
            }
            out.push('\n');
            crate::text::append_chars(out, ind);
            out.push(']');
            assert(out@ =~= old(out)@ + pretty_text(jview(*v), ind@));
        },
        JsonValue::Object(entries) => {
            let ghost ev = entries_view(entries@, entries@.len() as int);
            proof {
                lemma_entries_view(entries@, entries@.len() as int);
            }
            if entries.len() == 0 {
                out.push('{');
                out.push('}');
                assert(out@ =~= old(out)@ + pretty_text(jview(*v), ind@));
                return;
            }
            let mut inner = ind.clone();
            assert(inner@ == ind@);
            inner.push(' ');
            inner.push(' ');
            out.push('{');
            let mut i: usize = 0;
            while i < entries.len()
                invariant
                    i <= entries.len(),
                    *v == JsonValue::Object(*entries),
                    inner@ == ind@ + seq![' ', ' '],
                    ev == entries_view(entries@, entries@.len() as int),
                    ev.len() == entries.len(),
                    forall|j: int|
                        0 <= j < entries.len() ==> #[trigger] ev[j] == (
                            entries@[j].0@,
                            jview(entries@[j].1),
                        ),
                    out@ == old(out)@ + seq!['{'] + pretty_entries(ev, i as int, ind@),
                decreases entries.len() - i,
            {
                assert(decreases_to!(*v => (*v)->Object_0));
                assert(decreases_to!(*entries => entries@));
                assert(decreases_to!(entries@ => entries@[i as int]));
                assert(decreases_to!(entries@[i as int] => entries@[i as int].1));
                if i > 0 {
                    out.push(',');
                }
                out.push('\n');
                crate::text::append_chars(out, &inner);
                push_quoted(out, entries[i].0.as_str());
                out.push(':');
                out.push(' ');
                push_json_pretty(out, &entries[i].1, &inner);
                assert(ev[i as int] == (entries@[i as int].0@, jview(entries@[i as int].1)));
                i += 1;
                assert(out@ =~= old(out)@ + seq!['{'] + pretty_entries(ev, i as int, ind@));
            }
            out.push('\n');
            crate::text::append_chars(out, ind);
            out.push('}');
            assert(out@ =~= old(out)@ + pretty_text(jview(*v), ind@));
        },
        _ => {
            push_json(out, v);
        },
    }
}

impl JsonValue {
    /// The pretty JSON text of this value (`serde_json::to_string_pretty`).
    pub fn to_json_pretty(&self) -> (s: String)
        ensures
            s@ == pretty_text(jview(*self), seq![]),
    {
        let mut out: Vec<char> = Vec::new();
        let ind: Vec<char> = Vec::new();
        assert(ind@ =~= Seq::<char>::empty());
        push_json_pretty(&mut out, self, &ind);
        assert(out@ =~= pretty_text(jview(*self), seq![]));
        string_from(&out)
    }
}

} // verus!
