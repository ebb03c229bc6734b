//! A model of JSON trees.
//!
//! Upstream search APIs answer with arbitrary JSON. The surrounding
//! application parses the wire bytes and hands this crate a `JsonValue`;
//! everything the crate then does with the tree — field lookup, array
//! indexing, scalar coercion, and serialization — is specified and verified
//! here. A number is carried as its decimal text, the form in which it is
//! printed, so that no floating point enters the crate.

use vstd::prelude::*;
use crate::text::digit_char;

verus! {

/// A JSON value. `Num` holds the number's decimal text.
pub enum JsonValue {
    Null,
    Bool(bool),
    Num(String),
    Str(String),
    Arr(Vec<JsonValue>),
    Obj(Vec<(String, JsonValue)>),
}

// ---------------------------------------------------------------------------
// Navigation
// ---------------------------------------------------------------------------

/// The value of the first pair whose key is `name`, or `Null`.
pub open spec fn lookup_pairs(pairs: Seq<(String, JsonValue)>, name: Seq<char>) -> JsonValue
    decreases pairs.len(),
{
    if pairs.len() == 0 {
        JsonValue::Null
    } else if pairs[0].0@ == name {
        pairs[0].1
    } else {
        lookup_pairs(pairs.drop_first(), name)
    }
}

/// Field access as `serde_json::Value` indexes with a string: the named
/// member of an object, and `Null` on any other value or a missing key.
pub open spec fn field_of(v: JsonValue, name: Seq<char>) -> JsonValue {
    match v {
        JsonValue::Obj(pairs) => lookup_pairs(pairs@, name),
        _ => JsonValue::Null,
    }
}

/// Array access as `serde_json::Value` indexes with a number: the element at
/// `i`, and `Null` on any other value or out of bounds.
pub open spec fn item_of(v: JsonValue, i: int) -> JsonValue {
    match v {
        JsonValue::Arr(items) => if 0 <= i < items@.len() {
            items@[i]
        } else {
            JsonValue::Null
        },
        _ => JsonValue::Null,
    }
}

/// Looks up the named field.
pub fn get_field<'a>(v: &'a JsonValue, name: &Vec<char>) -> (r: &'a JsonValue)
    ensures
        *r == field_of(*v, name@),
{
    match v {
        JsonValue::Obj(pairs) => {
            let n = pairs.len();
            let mut k: usize = 0;
            proof {
                assert(pairs@.subrange(0, n as int) =~= pairs@);
            }
            while k < n
                invariant
                    k <= n,
                    n == pairs@.len(),
                    *v == JsonValue::Obj(*pairs),
                    lookup_pairs(pairs@, name@) == lookup_pairs(
                        pairs@.subrange(k as int, n as int),
                        name@,
                    ),
                decreases n - k,
            {
                let ghost rest = pairs@.subrange(k as int, n as int);
                proof {
                    assert(rest[0] == pairs@[k as int]);
                    assert(rest.drop_first() =~= pairs@.subrange(k + 1, n as int));
                }
                let key = crate::text::string_to_chars(&pairs[k].0);
                if crate::text::chars_eq(&key, name) {
                    proof {
                        assert(lookup_pairs(rest, name@) == rest[0].1);
                    }
                    return &pairs[k].1;
                }
                k += 1;
            }
            proof {
                assert(pairs@.subrange(n as int, n as int) =~= Seq::<(String, JsonValue)>::empty());
            }
            &JsonValue::Null
        },
        _ => &JsonValue::Null,
    }
}

/// Looks up the element at `i`.
pub fn get_item<'a>(v: &'a JsonValue, i: usize) -> (r: &'a JsonValue)
    ensures
        *r == item_of(*v, i as int),
{
    match v {
        JsonValue::Arr(items) => {
            if i < items.len() {
                &items[i]
            } else {
                &JsonValue::Null
            }
        },
        _ => &JsonValue::Null,
    }
}

/// The elements of an array value.
pub open spec fn arr_of(v: JsonValue) -> Option<Seq<JsonValue>> {
    match v {
        JsonValue::Arr(items) => Some(items@),
        _ => None,
    }
}

/// Borrows the elements when `v` is an array.
pub fn as_array<'a>(v: &'a JsonValue) -> (r: Option<&'a Vec<JsonValue>>)
    ensures
        match r {
            Some(items) => arr_of(*v) == Some(items@),
            None => arr_of(*v) is None,
        },
{
    match v {
        JsonValue::Arr(items) => Some(items),
        _ => None,
    }
}

// ---------------------------------------------------------------------------
// Scalar coercion
// ---------------------------------------------------------------------------

/// The text a terminal value coerces to: a string is itself, a number its
/// decimal text, a boolean `true`/`false`, and anything else empty.
pub open spec fn coerce_spec(v: JsonValue) -> Seq<char> {
    match v {
        JsonValue::Str(s) => s@,
        JsonValue::Num(n) => n@,
        JsonValue::Bool(b) => if b {
            "true"@
        } else {
            "false"@
        },
        _ => Seq::<char>::empty(),
    }
}

/// Coerces a terminal value to text.
pub fn coerce(v: &JsonValue) -> (r: Vec<char>)
    ensures
        r@ == coerce_spec(*v),
{
    match v {
        JsonValue::Str(s) => crate::text::string_to_chars(s),
        JsonValue::Num(n) => crate::text::string_to_chars(n),
        JsonValue::Bool(b) => {
            if *b {
                crate::text::str_to_chars("true")
            } else {
                crate::text::str_to_chars("false")
            }
        },
        _ => Vec::new(),
    }
}

/// The characters of a string value, or nothing.
pub open spec fn str_of(v: JsonValue) -> Option<Seq<char>> {
    match v {
        JsonValue::Str(s) => Some(s@),
        _ => None,
    }
}

/// The characters of a string value, or empty text, as
/// `Value::as_str().unwrap_or("")` reads a field.
pub open spec fn str_or_empty(v: JsonValue) -> Seq<char> {
    match v {
        JsonValue::Str(s) => s@,
        _ => Seq::<char>::empty(),
    }
}

/// Extracts the characters of a string value, or empty text.
pub fn str_or_empty_chars(v: &JsonValue) -> (r: Vec<char>)
    ensures
        r@ == str_or_empty(*v),
{
    match v {
        JsonValue::Str(s) => crate::text::string_to_chars(s),
        _ => Vec::new(),
    }
}

// ---------------------------------------------------------------------------
// Serialization (compact, as serde_json prints)
// ---------------------------------------------------------------------------

/// A lowercase hexadecimal digit.
pub open spec fn hex_digit(d: nat) -> char
    recommends
        d < 16,
{
    if d < 10 {
        digit_char(d)
    } else {
        ((d + 87) as u8) as char
    }
}

/// How one character is written inside a JSON string literal: the short
/// escapes for quote, backslash and the named control characters, `\u00xx`
/// for the remaining control characters, and the character itself otherwise.
pub open spec fn escape_char(c: char) -> Seq<char> {
    if c == '"' {
        seq!['\\', '"']
    } else if c == '\\' {
        seq!['\\', '\\']
    } else if c == '\u{0008}' {
        seq!['\\', 'b']
    } else if c == '\u{0009}' {
        seq!['\\', 't']
    } else if c == '\u{000A}' {
        seq!['\\', 'n']
    } else if c == '\u{000C}' {
        seq!['\\', 'f']
    } else if c == '\u{000D}' {
        seq!['\\', 'r']
    } else if c <= '\u{001F}' {
        seq!['\\', 'u', '0', '0', hex_digit((c as u32 / 16) as nat), hex_digit(
            (c as u32 % 16) as nat,
        )]
    } else {
        seq![c]
    }
}

/// The body of a JSON string literal for `s`.
pub open spec fn escape_str(s: Seq<char>) -> Seq<char>
    decreases s.len(),
{
    if s.len() == 0 {
        Seq::<char>::empty()
    } else {
        escape_str(s.drop_last()) + escape_char(s.last())
    }
}

/// A JSON string literal for `s`, quotes included.
pub open spec fn quoted(s: Seq<char>) -> Seq<char> {
    seq!['"'] + escape_str(s) + seq!['"']
}

/// The compact JSON text of `v`, as `serde_json::to_string` prints it.
pub open spec fn json_text(v: JsonValue) -> Seq<char>
    decreases v,
{
    match v {
        JsonValue::Null => "null"@,
        JsonValue::Bool(b) => if b {
            "true"@
        } else {
            "false"@
        },
        JsonValue::Num(n) => n@,
        JsonValue::Str(s) => quoted(s@),
        JsonValue::Arr(items) => seq!['['] + join_items(items@) + seq![']'],
        JsonValue::Obj(pairs) => seq!['{'] + join_pairs(pairs@) + seq!['}'],
    }
}

/// Array elements joined with commas.
pub open spec fn join_items(items: Seq<JsonValue>) -> Seq<char>
    decreases items, items.len(),
{
    if items.len() == 0 {
        Seq::<char>::empty()
    } else if items.len() == 1 {
        json_text(items[0])
    } else {
        join_items(items.drop_last()) + seq![','] + json_text(items.last())
    }
}

/// Object members, `"key":value`, joined with commas.
pub open spec fn join_pairs(pairs: Seq<(String, JsonValue)>) -> Seq<char>
    decreases pairs, pairs.len(),
{
    if pairs.len() == 0 {
        Seq::<char>::empty()
    } else if pairs.len() == 1 {
        quoted(pairs[0].0@) + seq![':'] + json_text(pairs[0].1)
    } else {
        join_pairs(pairs.drop_last()) + seq![','] + quoted(pairs.last().0@) + seq![':'] + json_text(
            pairs.last().1,
        )
    }
}

/// Appends one escaped character.
fn push_escaped(out: &mut Vec<char>, c: char)
    ensures
        final(out)@ == old(out)@ + escape_char(c),
{
    if c == '"' {
        out.push('\\');
        out.push('"');
    } else if c == '\\' {
        out.push('\\');
        out.push('\\');
    } else if c == '\u{0008}' {
        out.push('\\');
        out.push('b');
    } else if c == '\u{0009}' {
        out.push('\\');
        out.push('t');
    } else if c == '\u{000A}' {
        out.push('\\');
        out.push('n');
    } else if c == '\u{000C}' {
        out.push('\\');
        out.push('f');
    } else if c == '\u{000D}' {
        out.push('\\');
        out.push('r');
    } else if c <= '\u{001F}' {
        out.push('\\');
        out.push('u');
        out.push('0');
        out.push('0');
        let u = c as u32;
        let hi = hex_digit_char(u / 16);
        let lo = hex_digit_char(u % 16);
        out.push(hi);
        out.push(lo);
        proof {
            assert(out@ =~= old(out)@ + escape_char(c));
        }
    } else {
        out.push(c);
    }
    proof {
        assert(out@ =~= old(out)@ + escape_char(c));
    }
}

/// A lowercase hexadecimal digit, executably.
fn hex_digit_char(d: u32) -> (c: char)
    requires
        d < 16,
    ensures
        c == hex_digit(d as nat),
{
    if d == 0 {
        '0'
    } else if d == 1 {
        '1'
    } else if d == 2 {
        '2'
    } else if d == 3 {
        '3'
    } else if d == 4 {
        '4'
    } else if d == 5 {
        '5'
    } else if d == 6 {
        '6'
    } else if d == 7 {
        '7'
    } else if d == 8 {
        '8'
    } else if d == 9 {
        '9'
    } else if d == 10 {
        'a'
    } else if d == 11 {
        'b'
    } else if d == 12 {
        'c'
    } else if d == 13 {
        'd'
    } else if d == 14 {
        'e'
    } else {
        'f'
    }
}

/// Appends the escaped body of a string literal.
fn push_escaped_str(out: &mut Vec<char>, s: &Vec<char>)
    ensures
        final(out)@ == old(out)@ + escape_str(s@),
{
    let n = s.len();
    let mut i: usize = 0;
    proof {
        assert(s@.take(0) =~= Seq::<char>::empty());
        assert(out@ + escape_str(s@.take(0)) =~= out@);
    }
    while i < n
        invariant
            i <= n,
            n == s@.len(),
            out@ == old(out)@ + escape_str(s@.take(i as int)),
        decreases n - i,
    {
        let c = s[i];
        proof {
            assert(s@.take(i + 1).drop_last() =~= s@.take(i as int));
            assert(s@.take(i + 1).last() == s@[i as int]);
        }
        push_escaped(out, c);
        i += 1;
    }
    proof {
        assert(s@.take(n as int) =~= s@);
    }
}

/// Appends a JSON string literal for `s`.
pub fn push_quoted(out: &mut Vec<char>, s: &Vec<char>)
    ensures
        final(out)@ == old(out)@ + quoted(s@),
{
    out.push('"');
    push_escaped_str(out, s);
    out.push('"');
    proof {
        assert(out@ =~= old(out)@ + quoted(s@));
    }
}

/// Writes `v` as compact JSON text.
pub fn write_json(v: &JsonValue) -> (r: Vec<char>)
    ensures
        r@ == json_text(*v),
    decreases *v,
{
    let mut out: Vec<char> = Vec::new();
    match v {
        JsonValue::Null => {
            crate::text::append_str(&mut out, "null");
        },
        JsonValue::Bool(b) => {
            if *b {
                crate::text::append_str(&mut out, "true");
            } else {
                crate::text::append_str(&mut out, "false");
            }
        },
        JsonValue::Num(n) => {
            let chars = crate::text::string_to_chars(n);
            crate::text::append_chars(&mut out, &chars);
        },
        JsonValue::Str(s) => {
            let chars = crate::text::string_to_chars(s);
            push_quoted(&mut out, &chars);
        },
        JsonValue::Arr(items) => {
            out.push('[');
            let n = items.len();
            let mut k: usize = 0;
            proof {
                assert(items@.take(0) =~= Seq::<JsonValue>::empty());
                assert(out@ =~= seq!['['] + join_items(items@.take(0)));
            }
            while k < n
                invariant
                    k <= n,
                    n == items@.len(),
                    arr_of(*v) == Some(items@),
                    out@ == seq!['['] + join_items(items@.take(k as int)),
                decreases n - k,
            {
                if k > 0 {
                    out.push(',');
                }
                proof {
                    assert(decreases_to!(*v => items@[k as int]));
                    assert(items@.take(k + 1).drop_last() =~= items@.take(k as int));
                    assert(items@.take(k + 1).last() == items@[k as int]);
                    assert(items@.take(k + 1)[0] == items@[0]);
                }
                let piece = write_json(&items[k]);
                crate::text::append_chars(&mut out, &piece);
                proof {
                    assert(out@ =~= seq!['['] + join_items(items@.take(k + 1)));
                }
                k += 1;
            }
            out.push(']');
            proof {
                assert(items@.take(n as int) =~= items@);
                assert(out@ =~= json_text(*v));
            }
        },
        JsonValue::Obj(pairs) => {
            out.push('{');
            let n = pairs.len();
            let mut k: usize = 0;
            proof {
                assert(pairs@.take(0) =~= Seq::<(String, JsonValue)>::empty());
                assert(out@ =~= seq!['{'] + join_pairs(pairs@.take(0)));
            }
            while k < n
                invariant
                    k <= n,
                    n == pairs@.len(),
                    *v == JsonValue::Obj(*pairs),
                    out@ == seq!['{'] + join_pairs(pairs@.take(k as int)),
                decreases n - k,
            {
                if k > 0 {
                    out.push(',');
                }
                let key = crate::text::string_to_chars(&pairs[k].0);
                push_quoted(&mut out, &key);
                out.push(':');
                proof {
                    assert(v->Obj_0 == *pairs);
                    assert(decreases_to!(*v => v->Obj_0));
                    assert(decreases_to!(*pairs => pairs@));
                    assert(decreases_to!(pairs@ => pairs@[k as int]));
                    assert(decreases_to!(pairs@[k as int] => pairs@[k as int].1));
                    assert(decreases_to!(*v => pairs@[k as int].1));
                    assert(pairs@.take(k + 1).drop_last() =~= pairs@.take(k as int));
                    assert(pairs@.take(k + 1).last() == pairs@[k as int]);
                    assert(pairs@.take(k + 1)[0] == pairs@[0]);
                }
                let piece = write_json(&pairs[k].1);
                crate::text::append_chars(&mut out, &piece);
                proof {
                    assert(out@ =~= seq!['{'] + join_pairs(pairs@.take(k + 1)));
                }
                k += 1;
            }
            out.push('}');
            proof {
                assert(pairs@.take(n as int) =~= pairs@);
                assert(out@ =~= json_text(*v));
            }
        },
    }
    out
}

} // verus!
