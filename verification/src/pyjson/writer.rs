//! Writing values: Python's `json.dumps` and `str`.
use super::float;
use super::float::{py_repr_f64, py_str_f64};
use super::value;
use super::value::{Json, Value};
use crate::text;
use crate::text::{push_decimal_int, push_text, str_chars};
use vstd::prelude::*;

verus! {

// ---------------------------------------------------------------------------
// what is written
// ---------------------------------------------------------------------------
/// A hexadecimal digit, in lower case.
pub open spec fn hex_digit(d: nat) -> char {
    if d < 10 {
        (d + 48) as char
    } else {
        (d + 87) as char
    }
}

/// `n` in hexadecimal, in `width` lower-case digits.
pub open spec fn hex(n: nat, width: nat) -> Seq<char>
    decreases width,
{
    if width == 0 {
        seq![]
    } else {
        hex(n / 16, (width - 1) as nat).push(hex_digit(n % 16))
    }
}

/// One character inside a JSON string. `"`, `\` and the C0 controls are escaped, and
/// nothing else.
pub open spec fn json_char(c: char) -> Seq<char> {
    if c == '"' {
        seq!['\\', '"']
    } else if c == '\\' {
        seq!['\\', '\\']
    } else if c == '\n' {
        seq!['\\', 'n']
    } else if c == '\r' {
        seq!['\\', 'r']
    } else if c == '\t' {
        seq!['\\', 't']
    } else if c == '\u{8}' {
        seq!['\\', 'b']
    } else if c == '\u{c}' {
        seq!['\\', 'f']
    } else if (c as u32) < 0x20 {
        seq!['\\', 'u'] + hex(c as nat, 4)
    } else {
        seq![c]
    }
}

/// The characters of a JSON string, escaped.
pub open spec fn json_chars(s: Seq<char>) -> Seq<char>
    decreases s.len(),
{
    if s.len() == 0 {
        seq![]
    } else {
        json_chars(s.drop_last()) + json_char(s.last())
    }
}

/// A JSON string with its quotes.
pub open spec fn json_string(s: Seq<char>) -> Seq<char> {
    seq!['"'] + json_chars(s) + seq!['"']
}

/// `json.dumps(v, ensure_ascii=False)`.
pub open spec fn dumps_text(v: Json) -> Seq<char>
    decreases v, 0nat,
{
    match v {
        Json::Null => "null"@,
        Json::Bool(b) => if b {
            "true"@
        } else {
            "false"@
        },
        Json::Int(i) => text::decimal_int(i),
        Json::Float(f) => float::repr_real(f),
        Json::Str(s) => json_string(s),
        Json::Array(a) => seq!['['] + dumps_items(a) + seq![']'],
        Json::Object(m) => seq!['{'] + dumps_members(m) + seq!['}'],
    }
}

/// The elements of an array, separated by `, `.
pub open spec fn dumps_items(a: Seq<Json>) -> Seq<char>
    decreases a, a.len(),
{
    if a.len() == 0 {
        seq![]
    } else if a.len() == 1 {
        dumps_text(a[0])
    } else {
        dumps_items(a.drop_last()) + seq![',', ' '] + dumps_text(a.last())
    }
}

/// The members of an object, separated by `, `, each as `"key": value`.
pub open spec fn dumps_members(m: Seq<(Seq<char>, Json)>) -> Seq<char>
    decreases m, m.len(),
{
    if m.len() == 0 {
        seq![]
    } else if m.len() == 1 {
        json_string(m[0].0) + seq![':', ' '] + dumps_text(m[0].1)
    } else {
        dumps_members(m.drop_last()) + seq![',', ' '] + json_string(m.last().0) + seq![':', ' ']
            + dumps_text(m.last().1)
    }
}

/// The quote that Python's `repr` puts round a string: `'`, unless the string holds one
/// and no `"`.
pub open spec fn repr_quote(s: Seq<char>) -> char {
    if s.contains('\'') && !s.contains('"') {
        '"'
    } else {
        '\''
    }
}

/// One character inside the `repr` of a string that is quoted with `quote`.
pub open spec fn repr_char(c: char, quote: char) -> Seq<char> {
    if c == '\\' {
        seq!['\\', '\\']
    } else if c == '\n' {
        seq!['\\', 'n']
    } else if c == '\r' {
        seq!['\\', 'r']
    } else if c == '\t' {
        seq!['\\', 't']
    } else if c == quote {
        seq!['\\', c]
    } else if (c as u32) < 0x20 || (c as u32) == 0x7f {
        seq!['\\', 'x'] + hex(c as nat, 2)
    } else {
        seq![c]
    }
}

/// The characters inside the `repr` of a string that is quoted with `quote`.
pub open spec fn repr_chars(s: Seq<char>, quote: char) -> Seq<char>
    decreases s.len(),
{
    if s.len() == 0 {
        seq![]
    } else {
        repr_chars(s.drop_last(), quote) + repr_char(s.last(), quote)
    }
}

/// Python's `repr` of a string.
pub open spec fn repr_string(s: Seq<char>) -> Seq<char> {
    seq![repr_quote(s)] + repr_chars(s, repr_quote(s)) + seq![repr_quote(s)]
}

/// Python's `str(v)`, which for a container is its `repr`.
pub open spec fn str_text(v: Json) -> Seq<char>
    decreases v, 0nat,
{
    match v {
        Json::Null => "None"@,
        Json::Bool(b) => if b {
            "True"@
        } else {
            "False"@
        },
        Json::Int(i) => text::decimal_int(i),
        Json::Float(f) => float::str_real(f),
        Json::Str(s) => s,
        Json::Array(a) => seq!['['] + repr_items(a) + seq![']'],
        Json::Object(m) => seq!['{'] + repr_members(m) + seq!['}'],
    }
}

/// Python's `repr` of a value: its `str`, except that a string is quoted.
pub open spec fn repr_text(v: Json) -> Seq<char>
    decreases v, 1nat,
{
    match v {
        Json::Str(s) => repr_string(s),
        _ => str_text(v),
    }
}

/// The elements of a list, separated by `, `.
pub open spec fn repr_items(a: Seq<Json>) -> Seq<char>
    decreases a, a.len(),
{
    if a.len() == 0 {
        seq![]
    } else if a.len() == 1 {
        repr_text(a[0])
    } else {
        repr_items(a.drop_last()) + seq![',', ' '] + repr_text(a.last())
    }
}

/// The members of a dict, separated by `, `.
pub open spec fn repr_members(m: Seq<(Seq<char>, Json)>) -> Seq<char>
    decreases m, m.len(),
{
    if m.len() == 0 {
        seq![]
    } else if m.len() == 1 {
        repr_string(m[0].0) + seq![':', ' '] + repr_text(m[0].1)
    } else {
        repr_members(m.drop_last()) + seq![',', ' '] + repr_string(m.last().0) + seq![':', ' ']
            + repr_text(m.last().1)
    }
}

// ---------------------------------------------------------------------------
// writing it
// ---------------------------------------------------------------------------
/// Writes `n` in hexadecimal, in `width` lower-case digits, at the end of `out`.
pub(crate) fn push_hex(out: &mut String, n: u32, width: usize)
    ensures
        final(out)@ == old(out)@ + hex(n as nat, width as nat),
    decreases width,
{
    if width > 0 {
        push_hex(out, n / 16, width - 1);
        let d: u8 = (n % 16) as u8;
        out.push(
            if d < 10 {
                (d + 48) as char
            } else {
                (d + 87) as char
            },
        );
    }
    assert(out@ =~= old(out)@ + hex(n as nat, width as nat));
}

/// Writes one character of a JSON string at the end of `out`.
fn push_json_char(out: &mut String, c: char)
    ensures
        final(out)@ == old(out)@ + json_char(c),
{
    if c == '"' || c == '\\' {
        out.push('\\');
        out.push(c);
    } else if c == '\n' {
        out.push('\\');
        out.push('n');
    } else if c == '\r' {
        out.push('\\');
        out.push('r');
    } else if c == '\t' {
        out.push('\\');
        out.push('t');
    } else if c == '\u{8}' {
        out.push('\\');
        out.push('b');
    } else if c == '\u{c}' {
        out.push('\\');
        out.push('f');
    } else if (c as u32) < 0x20 {
        out.push('\\');
        out.push('u');
        push_hex(out, c as u32, 4);
    } else {
        out.push(c);
    }
    assert(out@ =~= old(out)@ + json_char(c));
}

/// Writes the characters of `s`, escaped for a JSON string, at the end of `out`.
///
/// `"`, `\` and the C0 controls are escaped, and nothing else. In particular `\x7f`,
/// `U+2028` and `U+2029` are written literally.
fn json_escape_into(s: &str, out: &mut String)
    ensures
        final(out)@ == old(out)@ + json_chars(s@),
{
    let c = str_chars(s);
    let mut i: usize = 0;
    while i < c.len()
        invariant
            c@ == s@,
            i <= c@.len(),
            out@ == old(out)@ + json_chars(c@.take(i as int)),
        decreases c.len() - i,
    {
        push_json_char(out, c[i]);
        i += 1;
        assert(c@.take(i as int).drop_last() =~= c@.take(i - 1));
        assert(out@ =~= old(out)@ + json_chars(c@.take(i as int)));
    }
    assert(c@.take(i as int) =~= s@);
}

/// Writes `s` as a JSON string at the end of `out`.
fn push_json_string(s: &str, out: &mut String)
    ensures
        final(out)@ == old(out)@ + json_string(s@),
{
    out.push('"');
    json_escape_into(s, out);
    out.push('"');
    assert(out@ =~= old(out)@ + json_string(s@));
}

/// Python's `json.dumps(v, ensure_ascii=False)`.
pub fn dumps(v: &Value) -> (r: String)
    ensures
        r@ == dumps_text(v@),
{
    let mut out = String::new();
    dumps_into(v, &mut out);
    assert(out@ =~= dumps_text(v@));
    out
}

fn dumps_into(v: &Value, out: &mut String)
    ensures
        final(out)@ == old(out)@ + dumps_text(v@),
    decreases v,
{
    match v {
        Value::Null => push_text(out, "null"),
        Value::Bool(b) => if *b {
            push_text(out, "true")
        } else {
            push_text(out, "false")
        },
        Value::Int(i) => push_decimal_int(out, *i),
        Value::Float(f) => push_text(out, py_repr_f64(f).as_str()),
        Value::Str(s) => push_json_string(s.as_str(), out),
        Value::Array(a) => {
            let ghost items = value::json_items(a@);
            proof {
                value::lemma_array_view(*a);
            }
            out.push('[');
            let mut i: usize = 0;
            while i < a.len()
                invariant
                    v == Value::Array(*a),
                    items == value::json_items(a@),
                    i <= a@.len(),
                    out@ == old(out)@ + (seq!['['] + dumps_items(items.take(i as int))),
                decreases a.len() - i,
            {
                if i > 0 {
                    push_text(out, ", ");
                }
                proof {
                    reveal_strlit(", ");
                    value::lemma_array_item_smaller(v, a, i as int);
                }
                dumps_into(&a[i], out);
                i += 1;
                assert(items.take(i as int).drop_last() =~= items.take(i - 1));
                assert(out@ =~= old(out)@ + (seq!['['] + dumps_items(items.take(i as int))));
            }
            out.push(']');
            assert(items.take(i as int) =~= items);
        },
        Value::Object(kv) => {
            let ghost members = value::json_members(kv@);
            proof {
                value::lemma_object_view(*kv);
            }
            out.push('{');
            let mut i: usize = 0;
            while i < kv.len()
                invariant
                    v == Value::Object(*kv),
                    members == value::json_members(kv@),
                    i <= kv@.len(),
                    out@ == old(out)@ + (seq!['{'] + dumps_members(members.take(i as int))),
                decreases kv.len() - i,
            {
                if i > 0 {
                    push_text(out, ", ");
                }
                push_json_string(kv[i].0.as_str(), out);
                push_text(out, ": ");
                proof {
                    reveal_strlit(", ");
                    reveal_strlit(": ");
                    value::lemma_object_item_smaller(v, kv, i as int);
                }
                dumps_into(&kv[i].1, out);
                i += 1;
                assert(members.take(i as int).drop_last() =~= members.take(i - 1));
                assert(out@ =~= old(out)@ + (seq!['{'] + dumps_members(members.take(i as int))));
            }
            out.push('}');
            assert(members.take(i as int) =~= members);
        },
    }
    assert(out@ =~= old(out)@ + dumps_text(v@));
}

/// Python's `str(v)`, which for a container is its `repr`.
///
/// Note the difference from [`dumps`]: single quotes, and `True`/`None`/`inf` rather than
/// `true`/`null`/`Infinity`.
pub fn py_str(v: &Value) -> (r: String)
    ensures
        r@ == str_text(v@),
    decreases v, 0nat,
{
    let mut out = String::new();
    match v {
        Value::Null => push_text(&mut out, "None"),
        Value::Bool(b) => if *b {
            push_text(&mut out, "True")
        } else {
            push_text(&mut out, "False")
        },
        Value::Int(i) => push_decimal_int(&mut out, *i),
        Value::Float(f) => push_text(&mut out, py_str_f64(f).as_str()),
        Value::Str(s) => push_text(&mut out, s.as_str()),
        Value::Array(a) => {
            let ghost items = value::json_items(a@);
            proof {
                value::lemma_array_view(*a);
            }
            out.push('[');
            let mut i: usize = 0;
            while i < a.len()
                invariant
                    v == Value::Array(*a),
                    items == value::json_items(a@),
                    i <= a@.len(),
                    out@ == seq!['['] + repr_items(items.take(i as int)),
                decreases a.len() - i,
            {
                if i > 0 {
                    push_text(&mut out, ", ");
                }
                proof {
                    reveal_strlit(", ");
                    value::lemma_array_item_smaller(v, a, i as int);
                }
                push_text(&mut out, py_repr(&a[i]).as_str());
                i += 1;
                assert(items.take(i as int).drop_last() =~= items.take(i - 1));
                assert(out@ =~= seq!['['] + repr_items(items.take(i as int)));
            }
            out.push(']');
            assert(items.take(i as int) =~= items);
        },
        Value::Object(kv) => {
            let ghost members = value::json_members(kv@);
            proof {
                value::lemma_object_view(*kv);
            }
            out.push('{');
            let mut i: usize = 0;
            while i < kv.len()
                invariant
                    v == Value::Object(*kv),
                    members == value::json_members(kv@),
                    i <= kv@.len(),
                    out@ == seq!['{'] + repr_members(members.take(i as int)),
                decreases kv.len() - i,
            {
                if i > 0 {
                    push_text(&mut out, ", ");
                }
                push_text(&mut out, py_repr_str(kv[i].0.as_str()).as_str());
                push_text(&mut out, ": ");
                proof {
                    reveal_strlit(", ");
                    reveal_strlit(": ");
                    value::lemma_object_item_smaller(v, kv, i as int);
                }
                push_text(&mut out, py_repr(&kv[i].1).as_str());
                i += 1;
                assert(members.take(i as int).drop_last() =~= members.take(i - 1));
                assert(out@ =~= seq!['{'] + repr_members(members.take(i as int)));
            }
            out.push('}');
            assert(members.take(i as int) =~= members);
        },
    }
    assert(out@ =~= str_text(v@));
    out
}

/// Python's `repr` of a value, i.e. `str` except that a string is quoted.
fn py_repr(v: &Value) -> (r: String)
    ensures
        r@ == repr_text(v@),
    decreases v, 1nat,
{
    match v {
        Value::Str(s) => py_repr_str(s.as_str()),
        other => py_str(other),
    }
}

/// Whether `c` holds `wanted`.
fn holds(c: &Vec<char>, wanted: char) -> (r: bool)
    ensures
        r == c@.contains(wanted),
{
    let mut i: usize = 0;
    while i < c.len()
        invariant
            i <= c@.len(),
            forall|j: int| 0 <= j < i ==> c@[j] != wanted,
        decreases c.len() - i,
    {
        if c[i] == wanted {
            return true;
        }
        i += 1;
    }
    false
}

/// Python's `repr` of a string: single quotes unless that would need more
/// escaping than double quotes.
fn py_repr_str(s: &str) -> (r: String)
    ensures
        r@ == repr_string(s@),
{
    let c = str_chars(s);
    let quote: char = if holds(&c, '\'') && !holds(&c, '"') {
        '"'
    } else {
        '\''
    };
    let mut out = String::new();
    out.push(quote);
    let mut i: usize = 0;
    while i < c.len()
        invariant
            i <= c@.len(),
            out@ == seq![quote] + repr_chars(c@.take(i as int), quote),
        decreases c.len() - i,
    {
        push_repr_char(&mut out, c[i], quote);
        i += 1;
        assert(c@.take(i as int).drop_last() =~= c@.take(i - 1));
        assert(out@ =~= seq![quote] + repr_chars(c@.take(i as int), quote));
    }
    assert(c@.take(i as int) =~= s@);
    out.push(quote);
    assert(out@ =~= repr_string(s@));
    out
}

/// Writes one character of a string's `repr` at the end of `out`.
fn push_repr_char(out: &mut String, c: char, quote: char)
    ensures
        final(out)@ == old(out)@ + repr_char(c, quote),
{
    if c == '\\' {
        out.push('\\');
        out.push('\\');
    } else if c == '\n' {
        out.push('\\');
        out.push('n');
    } else if c == '\r' {
        out.push('\\');
        out.push('r');
    } else if c == '\t' {
        out.push('\\');
        out.push('t');
    } else if c == quote {
        out.push('\\');
        out.push(c);
    } else if (c as u32) < 0x20 || (c as u32) == 0x7f {
        out.push('\\');
        out.push('x');
        push_hex(out, c as u32, 2);
    } else {
        out.push(c);
    }
    assert(out@ =~= old(out)@ + repr_char(c, quote));
}

} // verus!
