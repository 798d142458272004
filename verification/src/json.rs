//! The structured value a configuration file declares as a response body,
//! and its rendering to JSON text. Rendering is total and format-preserving:
//! nulls, booleans, integers, strings (escaped), arrays and objects come out
//! exactly as `json_of` describes, so a body round-trips through the cache
//! and the dispatcher unchanged.

use vstd::prelude::*;
use crate::strutil::chars_of;
use crate::strutil::string_from_chars;

verus! {

/// A JSON-like structured value.
#[derive(Debug)]
pub enum JsonValue {
    Null,
    Bool(bool),
    Int(i64),
    Str(String),
    Arr(Vec<JsonValue>),
    Obj(Vec<(String, JsonValue)>),
}

pub open spec fn digit_char(d: int) -> char {
    if d == 0 {
        '0'
    } else if d == 1 {
        '1'
    } else if d == 2 {
        '2'
    } else if d == 3 {
        '3'
    } else if d == 4 {
        '4'
    } else if d == 5 {
        '5'
    } else if d == 6 {
        '6'
    } else if d == 7 {
        '7'
    } else if d == 8 {
        '8'
    } else {
        '9'
    }
}

/// Decimal digits of a nonnegative number, most significant first.
pub open spec fn dec_digits(n: int) -> Seq<char>
    decreases n,
{
    if n < 10 {
        seq![digit_char(n)]
    } else {
        dec_digits(n / 10) + seq![digit_char(n % 10)]
    }
}

/// Decimal text of an integer, with a leading `-` when negative.
pub open spec fn int_str(i: int) -> Seq<char> {
    if i < 0 {
        seq!['-'] + dec_digits(-i)
    } else {
        dec_digits(i)
    }
}

pub open spec fn hex_char(d: int) -> char {
    if d < 10 {
        digit_char(d)
    } else if d == 10 {
        'a'
    } else if d == 11 {
        'b'
    } else if d == 12 {
        'c'
    } else if d == 13 {
        'd'
    } else if d == 14 {
        'e'
    } else {
        'f'
    }
}

/// How one character appears inside a JSON string literal.
pub open spec fn escape_char(c: char) -> Seq<char> {
    if c == '"' {
        seq!['\\', '"']
    } else if c == '\\' {
        seq!['\\', '\\']
    } else if c == '\n' {
        seq!['\\', 'n']
    } else if c == '\r' {
        seq!['\\', 'r']
    } else if c == '\t' {
        seq!['\\', 't']
    } else if (c as u32) < 32 {
        seq!['\\', 'u', '0', '0', hex_char((c as u32 / 16) as int), hex_char((c as u32 % 16) as int)]
    } else {
        seq![c]
    }
}

/// The body of a JSON string literal: every character escaped as needed.
pub open spec fn escape_string(s: Seq<char>) -> Seq<char>
    decreases s.len(),
{
    if s.len() == 0 {
        Seq::empty()
    } else {
        escape_char(s[0]) + escape_string(s.skip(1))
    }
}

pub proof fn lemma_escape_concat(a: Seq<char>, b: Seq<char>)
    ensures
        escape_string(a + b) == escape_string(a) + escape_string(b),
    decreases a.len(),
{
    if a.len() == 0 {
        assert(a + b =~= b);
        assert(escape_string(a) + escape_string(b) =~= escape_string(b));
    } else {
        lemma_escape_concat(a.skip(1), b);
        assert((a + b).skip(1) =~= a.skip(1) + b);
        assert((a + b)[0] == a[0]);
        assert(escape_char(a[0]) + (escape_string(a.skip(1)) + escape_string(b)) =~= (escape_char(
            a[0],
        ) + escape_string(a.skip(1))) + escape_string(b));
    }
}

pub proof fn lemma_escape_snoc(s: Seq<char>, i: int)
    requires
        0 <= i < s.len(),
    ensures
        escape_string(s.take(i + 1)) == escape_string(s.take(i)) + escape_char(s[i]),
{
    lemma_escape_concat(s.take(i), seq![s[i]]);
    assert(s.take(i + 1) =~= s.take(i) + seq![s[i]]);
    assert(seq![s[i]].skip(1) =~= Seq::<char>::empty());
    assert(escape_string(Seq::<char>::empty()) =~= Seq::<char>::empty());
    assert(escape_string(seq![s[i]]) == escape_char(seq![s[i]][0]) + escape_string(
        seq![s[i]].skip(1),
    ));
    assert(escape_string(seq![s[i]]) =~= escape_char(s[i]));
}

/// The JSON text of a value.
pub open spec fn json_of(v: JsonValue) -> Seq<char>
    decreases v, 0int,
{
    match v {
        JsonValue::Null => seq!['n', 'u', 'l', 'l'],
        JsonValue::Bool(b) => if b {
            seq!['t', 'r', 'u', 'e']
        } else {
            seq!['f', 'a', 'l', 's', 'e']
        },
        JsonValue::Int(i) => int_str(i as int),
        JsonValue::Str(s) => seq!['"'] + escape_string(s@) + seq!['"'],
        JsonValue::Arr(items) => seq!['['] + json_items(items@, 0) + seq![']'],
        JsonValue::Obj(fields) => seq!['{'] + json_fields(fields@, 0) + seq!['}'],
    }
}

/// The comma-joined JSON texts of the items from position `i` on.
pub open spec fn json_items(items: Seq<JsonValue>, i: int) -> Seq<char>
    decreases items, items.len() - i,
{
    if i < 0 || i >= items.len() {
        Seq::empty()
    } else if i == items.len() - 1 {
        json_of(items[i])
    } else {
        json_of(items[i]) + seq![','] + json_items(items, i + 1)
    }
}

/// The comma-joined `"key":value` members from position `i` on.
pub open spec fn json_fields(fields: Seq<(String, JsonValue)>, i: int) -> Seq<char>
    decreases fields, fields.len() - i,
{
    if i < 0 || i >= fields.len() {
        Seq::empty()
    } else if i == fields.len() - 1 {
        json_member(fields[i])
    } else {
        json_member(fields[i]) + seq![','] + json_fields(fields, i + 1)
    }
}

/// One `"key":value` member of an object.
pub open spec fn json_member(field: (String, JsonValue)) -> Seq<char>
    decreases field, 0int,
{
    seq!['"'] + escape_string(field.0@) + seq!['"', ':'] + json_of(field.1)
}

fn digit_char_exec(d: u64) -> (c: char)
    requires
        d < 10,
    ensures
        c == digit_char(d as int),
{
    if d == 0 {
        '0'
    } else if d == 1 {
        '1'
    } else if d == 2 {
        '2'
    } else if d == 3 {
        '3'
    } else if d == 4 {
        '4'
    } else if d == 5 {
        '5'
    } else if d == 6 {
        '6'
    } else if d == 7 {
        '7'
    } else if d == 8 {
        '8'
    } else {
        '9'
    }
}

fn hex_char_exec(d: u32) -> (c: char)
    requires
        d < 16,
    ensures
        c == hex_char(d as int),
{
    if d < 10 {
        digit_char_exec(d as u64)
    } else if d == 10 {
        'a'
    } else if d == 11 {
        'b'
    } else if d == 12 {
        'c'
    } else if d == 13 {
        'd'
    } else if d == 14 {
        'e'
    } else {
        'f'
    }
}

/// Appends the decimal digits of `n`.
fn push_dec(out: &mut Vec<char>, n: u64)
    ensures
        final(out)@ == old(out)@ + dec_digits(n as int),
    decreases n,
{
    if n < 10 {
        out.push(digit_char_exec(n));
        proof {
            assert(out@ =~= old(out)@ + dec_digits(n as int));
        }
    } else {
        push_dec(out, n / 10);
        out.push(digit_char_exec(n % 10));
        proof {
            assert(out@ =~= old(out)@ + (dec_digits(n as int / 10) + seq![
                digit_char(n as int % 10),
            ]));
        }
    }
}

/// Appends the decimal text of `i`.
fn push_int(out: &mut Vec<char>, i: i64)
    ensures
        final(out)@ == old(out)@ + int_str(i as int),
{
    if i < 0 {
        out.push('-');
        let m: u64 = ((-(i + 1)) as u64) + 1;
        proof {
            assert(m as int == -(i as int));
        }
        let ghost mid = out@;
        push_dec(out, m);
        proof {
            assert(mid =~= old(out)@ + seq!['-']);
            assert(out@ =~= old(out)@ + (seq!['-'] + dec_digits(-(i as int))));
        }
    } else {
        push_dec(out, i as u64);
    }
}

/// Appends the escaped form of the characters of `s`.
fn push_escaped(out: &mut Vec<char>, s: &str)
    ensures
        final(out)@ == old(out)@ + escape_string(s@),
{
    let v = chars_of(s);
    let n: usize = v.len();
    let mut i: usize = 0;
    proof {
        assert(escape_string(s@.take(0)) =~= Seq::<char>::empty());
        assert(out@ =~= old(out)@ + escape_string(s@.take(0)));
    }
    while i < n
        invariant
            n == v@.len(),
            v@ == s@,
            i <= n,
            out@ == old(out)@ + escape_string(s@.take(i as int)),
        decreases n - i,
    {
        let c = v[i];
        let ghost mid = out@;
        if c == '"' {
            out.push('\\');
            out.push('"');
            proof {
                assert(out@ =~= mid + escape_char(c));
            }
        } else if c == '\\' {
            out.push('\\');
            out.push('\\');
            proof {
                assert(out@ =~= mid + escape_char(c));
            }
        } else if c == '\n' {
            out.push('\\');
            out.push('n');
            proof {
                assert(out@ =~= mid + escape_char(c));
            }
        } else if c == '\r' {
            out.push('\\');
            out.push('r');
            proof {
                assert(out@ =~= mid + escape_char(c));
            }
        } else if c == '\t' {
            out.push('\\');
            out.push('t');
            proof {
                assert(out@ =~= mid + escape_char(c));
            }
        } else {
            let u = c as u32;
            if u < 32 {
                out.push('\\');
                out.push('u');
                out.push('0');
                out.push('0');
                out.push(hex_char_exec(u / 16));
                out.push(hex_char_exec(u % 16));
                proof {
                    assert(out@ =~= mid + escape_char(c));
                }
            } else {
                out.push(c);
                proof {
                    assert(out@ =~= mid + escape_char(c));
                }
            }
        }
        proof {
            assert(c == s@[i as int]);
            assert(out@ =~= mid + escape_char(s@[i as int]));
            lemma_escape_snoc(s@, i as int);
            assert(out@ =~= old(out)@ + escape_string(s@.take(i + 1)));
        }
        i = i + 1;
    }
    proof {
        assert(s@.take(n as int) =~= s@);
    }
}

/// Appends the JSON text of `v`.
fn write_json(v: &JsonValue, out: &mut Vec<char>)
    ensures
        final(out)@ == old(out)@ + json_of(*v),
    decreases *v, 0int,
{
    match v {
        JsonValue::Null => {
            out.push('n');
            out.push('u');
            out.push('l');
            out.push('l');
            proof {
                assert(out@ =~= old(out)@ + json_of(*v));
            }
        },
        JsonValue::Bool(b) => {
            if *b {
                out.push('t');
                out.push('r');
                out.push('u');
                out.push('e');
            } else {
                out.push('f');
                out.push('a');
                out.push('l');
                out.push('s');
                out.push('e');
            }
            proof {
                assert(out@ =~= old(out)@ + json_of(*v));
            }
        },
        JsonValue::Int(i) => {
            push_int(out, *i);
        },
        JsonValue::Str(s) => {
            out.push('"');
            push_escaped(out, s.as_str());
            out.push('"');
            proof {
                assert(out@ =~= old(out)@ + json_of(*v));
            }
        },
        JsonValue::Arr(items) => {
            out.push('[');
            write_items(items, 0, out);
            out.push(']');
            proof {
                assert(out@ =~= old(out)@ + json_of(*v));
            }
        },
        JsonValue::Obj(fields) => {
            out.push('{');
            write_fields(fields, 0, out);
            out.push('}');
            proof {
                assert(out@ =~= old(out)@ + json_of(*v));
            }
        },
    }
}

/// Appends the comma-joined JSON texts of the items from position `i` on.
fn write_items(items: &Vec<JsonValue>, i: usize, out: &mut Vec<char>)
    ensures
        final(out)@ == old(out)@ + json_items(items@, i as int),
    decreases items@, items@.len() - i,
{
    if i < items.len() {
        let ghost before = out@;
        write_json(&items[i], out);
        if i + 1 < items.len() {
            out.push(',');
            let ghost mid = out@;
            write_items(items, i + 1, out);
            proof {
                assert(mid =~= before + json_of(items@[i as int]) + seq![',']);
                assert(out@ =~= before + (json_of(items@[i as int]) + seq![','] + json_items(
                    items@,
                    i + 1,
                )));
            }
        } else {
            proof {
                assert(i == items@.len() - 1);
            }
        }
    }
}

/// Appends the comma-joined `"key":value` members from position `i` on.
fn write_fields(fields: &Vec<(String, JsonValue)>, i: usize, out: &mut Vec<char>)
    ensures
        final(out)@ == old(out)@ + json_fields(fields@, i as int),
    decreases fields@, fields@.len() - i,
{
    if i < fields.len() {
        let ghost before = out@;
        let field = &fields[i];
        out.push('"');
        push_escaped(out, field.0.as_str());
        out.push('"');
        out.push(':');
        proof {
            assert(out@ =~= before + (seq!['"'] + escape_string(fields@[i as int].0@) + seq![
                '"',
                ':',
            ]));
        }
        write_json(&field.1, out);
        proof {
            assert(out@ =~= before + json_member(fields@[i as int]));
        }
        if i + 1 < fields.len() {
            out.push(',');
            let ghost mid = out@;
            write_fields(fields, i + 1, out);
            proof {
                assert(mid =~= before + json_member(fields@[i as int]) + seq![',']);
                assert(out@ =~= before + (json_member(fields@[i as int]) + seq![','] + json_fields(
                    fields@,
                    i + 1,
                )));
            }
        } else {
            proof {
                assert(i == fields@.len() - 1);
            }
        }
    }
}

/// The JSON text of `v`, exactly as `json_of` describes it.
pub fn to_json_string(v: &JsonValue) -> (r: String)
    ensures
        r@ == json_of(*v),
{
    let mut out: Vec<char> = Vec::new();
    write_json(v, &mut out);
    string_from_chars(&out)
}

pub proof fn lemma_items_congruent(a: Seq<JsonValue>, b: Seq<JsonValue>, i: int)
    requires
        b.len() == a.len(),
        forall|j: int| 0 <= j < a.len() ==> json_of(#[trigger] a[j]) == json_of(b[j]),
    ensures
        json_items(a, i) == json_items(b, i),
    decreases a.len() - i,
{
    if i < 0 || i >= a.len() {
    } else {
        lemma_items_congruent(a, b, i + 1);
    }
}

pub proof fn lemma_fields_congruent(a: Seq<(String, JsonValue)>, b: Seq<(String, JsonValue)>, i: int)
    requires
        b.len() == a.len(),
        forall|j: int| 0 <= j < a.len() ==> json_member(#[trigger] a[j]) == json_member(b[j]),
    ensures
        json_fields(a, i) == json_fields(b, i),
    decreases a.len() - i,
{
    if i < 0 || i >= a.len() {
    } else {
        lemma_fields_congruent(a, b, i + 1);
    }
}

impl Clone for JsonValue {
    /// A structural copy; it renders to the same JSON text.
    fn clone(&self) -> (r: JsonValue)
        ensures
            json_of(r) == json_of(*self),
    {
        dup_json(self)
    }
}

fn dup_json(v: &JsonValue) -> (r: JsonValue)
    ensures
        json_of(r) == json_of(*v),
    decreases *v, 0int,
{
    match v {
        JsonValue::Null => JsonValue::Null,
        JsonValue::Bool(b) => JsonValue::Bool(*b),
        JsonValue::Int(i) => JsonValue::Int(*i),
        JsonValue::Str(s) => JsonValue::Str(s.clone()),
        JsonValue::Arr(items) => {
            let mut w: Vec<JsonValue> = Vec::new();
            dup_items(items, 0, &mut w);
            proof {
                lemma_items_congruent(items@, w@, 0);
            }
            JsonValue::Arr(w)
        },
        JsonValue::Obj(fields) => {
            let mut w: Vec<(String, JsonValue)> = Vec::new();
            dup_fields(fields, 0, &mut w);
            proof {
                lemma_fields_congruent(fields@, w@, 0);
            }
            JsonValue::Obj(w)
        },
    }
}

fn dup_items(items: &Vec<JsonValue>, i: usize, out: &mut Vec<JsonValue>)
    requires
        i <= items@.len(),
        old(out)@.len() == i,
        forall|j: int| 0 <= j < i ==> json_of(#[trigger] items@[j]) == json_of(old(out)@[j]),
    ensures
        final(out)@.len() == items@.len(),
        forall|j: int|
            0 <= j < items@.len() ==> json_of(#[trigger] items@[j]) == json_of(final(out)@[j]),
    decreases items@, items@.len() - i,
{
    if i < items.len() {
        let d = dup_json(&items[i]);
        out.push(d);
        dup_items(items, i + 1, out);
    }
}

fn dup_fields(fields: &Vec<(String, JsonValue)>, i: usize, out: &mut Vec<(String, JsonValue)>)
    requires
        i <= fields@.len(),
        old(out)@.len() == i,
        forall|j: int|
            0 <= j < i ==> json_member(#[trigger] fields@[j]) == json_member(old(out)@[j]),
    ensures
        final(out)@.len() == fields@.len(),
        forall|j: int|
            0 <= j < fields@.len() ==> json_member(#[trigger] fields@[j]) == json_member(
                final(out)@[j],
            ),
    decreases fields@, fields@.len() - i,
{
    if i < fields.len() {
        let field = &fields[i];
        let k = field.0.clone();
        let d = dup_json(&field.1);
        proof {
            assert(json_member((k, d)) == json_member(fields@[i as int]));
        }
        out.push((k, d));
        dup_fields(fields, i + 1, out);
    }
}

} // verus!
