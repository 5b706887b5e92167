//! Reading values: the JSON grammar, over the characters of a document.
//!
//! Positions in messages are byte offsets into the document's UTF-8 encoding.
use super::float::{Decimal, Float, Real};
use super::value;
use super::value::{Json, Value};
use super::writer;
use super::writer::push_hex;
use crate::text;
use crate::text::{char_width, chars_string, push_decimal, push_text, stands_at, str_chars, to_owned_text};
use vstd::prelude::*;

verus! {

// ---------------------------------------------------------------------------
// the grammar
// ---------------------------------------------------------------------------
/// What reading at some position gives: a value and the position behind it, or what is
/// wrong with the document.
pub type Reading<T> = Result<(T, int), Seq<char>>;

/// The character at `i`, where there is one.
pub open spec fn peek(c: Seq<char>, i: int) -> Option<char> {
    if 0 <= i < c.len() {
        Some(c[i])
    } else {
        None
    }
}

/// The byte offset of character `i`, in decimal.
pub open spec fn offset(c: Seq<char>, i: int) -> Seq<char> {
    text::decimal(text::utf8_bytes(c.take(i)))
}

/// The first byte of a character's UTF-8 encoding, as a character.
pub open spec fn lead(c: char) -> char {
    let u = c as u32;
    if u < 0x80 {
        c
    } else if u < 0x800 {
        (0xc0 + u / 0x40) as char
    } else if u < 0x10000 {
        (0xe0 + u / 0x1000) as char
    } else {
        (0xf0 + u / 0x40000) as char
    }
}

/// What is said where `wanted` is missing at `i`.
pub open spec fn missing(c: Seq<char>, i: int, wanted: char) -> Seq<char> {
    let found = match peek(c, i) {
        Some(g) => seq!['`', lead(g), '`'],
        None => "end of input"@,
    };
    "expected `"@ + seq![wanted] + "` at byte "@ + offset(c, i) + ", found "@ + found
}

/// Whether JSON counts `c` as white space.
pub open spec fn json_space(c: char) -> bool {
    c == ' ' || c == '\t' || c == '\n' || c == '\r'
}

/// The first position at or after `i` without JSON white space.
pub open spec fn skip_space(c: Seq<char>, i: int) -> int
    decreases c.len() - i,
{
    if 0 <= i < c.len() && json_space(c[i]) {
        skip_space(c, i + 1)
    } else {
        i
    }
}

/// The value of a hexadecimal digit.
pub open spec fn hex_value(c: char) -> Option<nat> {
    if '0' <= c <= '9' {
        Some((c as nat - 48) as nat)
    } else if 'a' <= c <= 'f' {
        Some((c as nat - 87) as nat)
    } else if 'A' <= c <= 'F' {
        Some((c as nat - 55) as nat)
    } else {
        None
    }
}

/// Whether `s` is four hexadecimal digits.
pub open spec fn four_hex(s: Seq<char>) -> bool {
    s.len() == 4 && hex_value(s[0]) is Some && hex_value(s[1]) is Some && hex_value(s[2]) is Some
        && hex_value(s[3]) is Some
}

/// The number that four hexadecimal digits stand for.
pub open spec fn four_hex_value(s: Seq<char>) -> nat {
    hex_value(s[0])->0 * 0x1000 + hex_value(s[1])->0 * 0x100 + hex_value(s[2])->0 * 0x10
        + hex_value(s[3])->0
}

/// The four hexadecimal digits at `i`: the next four bytes.
pub open spec fn hex4(c: Seq<char>, i: int) -> Result<nat, Seq<char>> {
    let s = c.subrange(i, i + text::whole_chars(c, i, 4));
    if text::utf8_bytes(c.skip(i)) < 4 {
        Err("truncated \\u escape"@)
    } else if text::utf8_bytes(s) < 4 {
        Err(
            "invalid UTF-8 in \\u escape: incomplete utf-8 byte sequence from index "@
                + text::decimal(text::utf8_bytes(s)),
        )
    } else if four_hex(s) {
        Ok(four_hex_value(s))
    } else {
        Err(seq!['`'] + s + "` is not four hex digits"@)
    }
}

/// The character of a `\u` escape whose digits start at `i`. A surrogate pair is two
/// escapes; a lone surrogate is no character.
pub open spec fn unicode_escape(c: Seq<char>, i: int) -> Reading<char> {
    match hex4(c, i) {
        Err(e) => Err(e),
        Ok(hi) => if 0xd800 <= hi < 0xdc00 {
            if !text::matches_at(c, seq!['\\', 'u'], i + 4) {
                Err("expected `\\u` at byte "@ + offset(c, i + 4))
            } else {
                match hex4(c, i + 6) {
                    Err(e) => Err(e),
                    Ok(lo) => if 0xdc00 <= lo < 0xe000 {
                        Ok(
                            (
                                (0x10000 + (hi - 0xd800) * 0x400 + (lo - 0xdc00)) as char,
                                i + 10,
                            ),
                        )
                    } else {
                        Err("a high surrogate not followed by a low one"@)
                    },
                }
            }
        } else if 0xdc00 <= hi < 0xe000 {
            Err("\\u"@ + writer::hex(hi, 4) + " is not a character"@)
        } else {
            Ok((hi as char, i + 4))
        },
    }
}

/// The character of an escape whose letter stands at `i`.
pub open spec fn escape(c: Seq<char>, i: int) -> Reading<char> {
    match peek(c, i) {
        None => Err("unterminated escape"@),
        Some(e) => if e == '"' || e == '\\' || e == '/' {
            Ok((e, i + 1))
        } else if e == 'b' {
            Ok(('\u{8}', i + 1))
        } else if e == 'f' {
            Ok(('\u{c}', i + 1))
        } else if e == 'n' {
            Ok(('\n', i + 1))
        } else if e == 'r' {
            Ok(('\r', i + 1))
        } else if e == 't' {
            Ok(('\t', i + 1))
        } else if e == 'u' {
            unicode_escape(c, i + 1)
        } else {
            Err("unknown escape `\\"@ + seq![lead(e), '`'])
        },
    }
}

/// One character of a string, at `i`. A control character has to be escaped.
pub open spec fn string_char(c: Seq<char>, i: int) -> Reading<char> {
    if c[i] == '\\' {
        escape(c, i + 1)
    } else if (c[i] as u32) < 0x20 {
        Err("a control character must be escaped, at byte "@ + offset(c, i))
    } else {
        Ok((c[i], i + 1))
    }
}

/// A reading with `head` put in front of what was read.
pub open spec fn put_first<T>(head: Seq<T>, r: Reading<Seq<T>>) -> Reading<Seq<T>> {
    match r {
        Err(e) => Err(e),
        Ok((tail, end)) => Ok((head + tail, end)),
    }
}

/// The characters of a string from `i` on, up to its closing quote.
pub open spec fn string_tail(c: Seq<char>, i: int) -> Reading<Seq<char>>
    decreases c.len() - i,
{
    if !(0 <= i < c.len()) {
        Err("unterminated string"@)
    } else if c[i] == '"' {
        Ok((seq![], i + 1))
    } else {
        proof {
            lemma_string_char(c, i);
        }
        match string_char(c, i) {
            Err(e) => Err(e),
            Ok((x, j)) => put_first(seq![x], string_tail(c, j)),
        }
    }
}

/// A string at `i`.
pub open spec fn string_at(c: Seq<char>, i: int) -> Reading<Seq<char>> {
    if peek(c, i) == Some('"') {
        string_tail(c, i + 1)
    } else {
        Err(missing(c, i, '"'))
    }
}

/// The first position at or after `i` without a decimal digit.
pub open spec fn skip_digits(c: Seq<char>, i: int) -> int
    decreases c.len() - i,
{
    if 0 <= i < c.len() && super::float::is_digit(c[i]) {
        skip_digits(c, i + 1)
    } else {
        i
    }
}

/// The number that decimal digits stand for.
pub open spec fn digits_value(s: Seq<char>) -> nat
    decreases s.len(),
{
    if s.len() == 0 {
        0
    } else {
        digits_value(s.drop_last()) * 10 + (s.last() as nat - 48) as nat
    }
}

/// How many zeros `s` starts with.
pub open spec fn leading_zeros(s: Seq<char>) -> nat
    decreases s.len(),
{
    if s.len() > 0 && s[0] == '0' {
        1 + leading_zeros(s.skip(1))
    } else {
        0
    }
}

/// `s` without the zeros it ends in.
pub open spec fn without_trailing_zeros(s: Seq<char>) -> Seq<char>
    decreases s.len(),
{
    if s.len() > 0 && s.last() == '0' {
        without_trailing_zeros(s.drop_last())
    } else {
        s
    }
}

/// The number in `i32` that is nearest to `n`.
pub open spec fn clamp(n: int) -> int {
    if n < i32::MIN {
        i32::MIN as int
    } else if n > i32::MAX {
        i32::MAX as int
    } else {
        n
    }
}

/// `0.<digits> * 10^point` in its shortest form. It is the exact decimal, which no double need
/// hold: nothing is rounded here, and `1e400` is finite. An exponent beyond `i32`, far outside
/// what a double can hold, becomes the nearest that `i32` has.
pub open spec fn normal_form(negative: bool, digits: Seq<char>, point: int) -> Real {
    let k = leading_zeros(digits);
    if k == digits.len() {
        Real::Finite { negative, digits: seq!['0'], exponent: 0 }
    } else {
        Real::Finite {
            negative,
            digits: without_trailing_zeros(digits.skip(k as int)),
            exponent: clamp(point - k - 1),
        }
    }
}

/// The end of a fraction that may start at `i` with a `.`.
pub open spec fn fraction_end(c: Seq<char>, i: int) -> Result<int, Seq<char>> {
    if peek(c, i) == Some('.') {
        if skip_digits(c, i + 1) == i + 1 {
            Err("a `.` must be followed by a digit, at byte "@ + offset(c, i + 1))
        } else {
            Ok(skip_digits(c, i + 1))
        }
    } else {
        Ok(i)
    }
}

/// Whether an exponent starts at `i`.
pub open spec fn has_exponent(c: Seq<char>, i: int) -> bool {
    peek(c, i) == Some('e') || peek(c, i) == Some('E')
}

/// Where the digits of the exponent that starts at `i` start.
pub open spec fn exponent_digits(c: Seq<char>, i: int) -> int {
    if peek(c, i + 1) == Some('+') || peek(c, i + 1) == Some('-') {
        i + 2
    } else {
        i + 1
    }
}

/// The end of an exponent that may start at `i`.
pub open spec fn exponent_end(c: Seq<char>, i: int) -> Result<int, Seq<char>> {
    if has_exponent(c, i) {
        let d = exponent_digits(c, i);
        if skip_digits(c, d) == d {
            Err("an exponent must have digits, at byte "@ + offset(c, d))
        } else {
            Ok(skip_digits(c, d))
        }
    } else {
        Ok(i)
    }
}

/// The value of the exponent that stands in `i..end`, and 0 where none stands.
pub open spec fn exponent_value(c: Seq<char>, i: int, end: int) -> int {
    if has_exponent(c, i) {
        let n = digits_value(c.subrange(exponent_digits(c, i), end)) as int;
        if peek(c, i + 1) == Some('-') {
            -n
        } else {
            n
        }
    } else {
        0
    }
}

/// The digits of a fraction that stands in `i..end`.
pub open spec fn fraction_digits(c: Seq<char>, i: int, end: int) -> Seq<char> {
    if end > i {
        c.subrange(i + 1, end)
    } else {
        seq![]
    }
}

/// The integer of the digits `s`, where it fits `i128`.
pub open spec fn integer(s: Seq<char>, negative: bool) -> Result<int, Seq<char>> {
    let n = digits_value(s) as int;
    if negative && -n < i128::MIN {
        Err("number too small to fit in target type"@)
    } else if !negative && n > i128::MAX {
        Err("number too large to fit in target type"@)
    } else {
        Ok(
            if negative {
                -n
            } else {
                n
            },
        )
    }
}

/// A number whose first character stands at `i`. An integer part may not have a leading
/// zero, and a `.` or an exponent has digits. A float is the exact decimal of its numeral.
pub open spec fn number_at(c: Seq<char>, i: int) -> Reading<Json> {
    let negative = peek(c, i) == Some('-');
    let a = if negative {
        i + 1
    } else {
        i
    };
    let b = skip_digits(c, a);
    if b - a > 1 && c[a] == '0' {
        Err("a number may not have a leading zero, at byte "@ + offset(c, a))
    } else {
        match fraction_end(c, b) {
            Err(e) => Err(e),
            Ok(f) => match exponent_end(c, f) {
                Err(e) => Err(e),
                Ok(end) => {
                    let literal = seq!['`'] + c.subrange(i, end);
                    if end == b {
                        if a == b {
                            Err(literal + "` is not a number"@)
                        } else {
                            match integer(c.subrange(a, b), negative) {
                                Err(e) => Err(literal + "` is not an i128: "@ + e),
                                Ok(n) => Ok((Json::Int(n), end)),
                            }
                        }
                    } else if a == b {
                        Err(literal + "` is not a float: invalid float literal"@)
                    } else {
                        Ok(
                            (
                                Json::Float(
                                    normal_form(
                                        negative,
                                        c.subrange(a, b) + fraction_digits(c, b, f),
                                        b - a + exponent_value(c, f, end),
                                    ),
                                ),
                                end,
                            ),
                        )
                    }
                },
            },
        }
    }
}

/// The word `word` at `i`, which stands for `v`.
pub open spec fn word_at(c: Seq<char>, i: int, word: Seq<char>, v: Json) -> Reading<Json> {
    if text::matches_at(c, word, i) {
        Ok((v, i + word.len()))
    } else {
        Err("expected `"@ + word + "` at byte "@ + offset(c, i))
    }
}

/// A value at `i`.
pub open spec fn value_at(c: Seq<char>, i: int) -> Reading<Json>
    decreases c.len() - i, 0nat,
{
    match peek(c, i) {
        None => Err("unexpected end of input"@),
        Some(x) => if x == '{' {
            if peek(c, skip_space(c, i + 1)) == Some('}') {
                Ok((Json::Object(seq![]), skip_space(c, i + 1) + 1))
            } else {
                match members_at(c, i + 1) {
                    Err(e) => Err(e),
                    Ok((m, end)) => Ok((Json::Object(m), end)),
                }
            }
        } else if x == '[' {
            if peek(c, skip_space(c, i + 1)) == Some(']') {
                Ok((Json::Array(seq![]), skip_space(c, i + 1) + 1))
            } else {
                match items_at(c, i + 1) {
                    Err(e) => Err(e),
                    Ok((a, end)) => Ok((Json::Array(a), end)),
                }
            }
        } else if x == '"' {
            match string_at(c, i) {
                Err(e) => Err(e),
                Ok((s, end)) => Ok((Json::Str(s), end)),
            }
        } else if x == 't' {
            word_at(c, i, "true"@, Json::Bool(true))
        } else if x == 'f' {
            word_at(c, i, "false"@, Json::Bool(false))
        } else if x == 'n' {
            word_at(c, i, "null"@, Json::Null)
        } else if x == '-' || super::float::is_digit(x) {
            number_at(c, i)
        } else {
            Err("unexpected `"@ + seq![lead(x)] + "` at byte "@ + offset(c, i))
        },
    }
}

/// The elements of an array from `i` on, and its closing bracket.
///
/// A reading ends behind where it began (`lemma_value_advances`), so the check that it
/// does never fails; it is what makes the recursion well-founded.
pub open spec fn items_at(c: Seq<char>, i: int) -> Reading<Seq<Json>>
    decreases c.len() - i, 1nat,
{
    let j = skip_space(c, i);
    proof {
        lemma_skip_space(c, i);
    }
    match value_at(c, j) {
        Err(e) => Err(e),
        Ok((v, k)) => if k <= j {
            Err(seq![])
        } else {
            let m = skip_space(c, k);
            proof {
                lemma_skip_space(c, k);
            }
            if peek(c, m) == Some(',') {
                put_first(seq![v], items_at(c, m + 1))
            } else if peek(c, m) == Some(']') {
                Ok((seq![v], m + 1))
            } else {
                Err("expected `,` or `]` at byte "@ + offset(c, m))
            }
        },
    }
}

/// The members of an object from `i` on, and its closing brace.
pub open spec fn members_at(c: Seq<char>, i: int) -> Reading<Seq<(Seq<char>, Json)>>
    decreases c.len() - i, 1nat,
{
    let j = skip_space(c, i);
    proof {
        lemma_skip_space(c, i);
    }
    match string_at(c, j) {
        Err(e) => Err(e),
        Ok((key, k)) => {
            let m = skip_space(c, k);
            let n = skip_space(c, m + 1);
            proof {
                lemma_string_advances(c, j + 1);
                lemma_skip_space(c, k);
                lemma_skip_space(c, m + 1);
            }
            if peek(c, m) != Some(':') {
                Err(missing(c, m, ':'))
            } else {
                match value_at(c, n) {
                    Err(e) => Err(e),
                    Ok((v, e)) => if e <= n {
                        Err(seq![])
                    } else {
                        let p = skip_space(c, e);
                        proof {
                            lemma_skip_space(c, e);
                        }
                        if peek(c, p) == Some(',') {
                            put_first(seq![(key, v)], members_at(c, p + 1))
                        } else if peek(c, p) == Some('}') {
                            Ok((seq![(key, v)], p + 1))
                        } else {
                            Err("expected `,` or `}` at byte "@ + offset(c, p))
                        }
                    },
                }
            }
        },
    }
}

/// A document: one value, with white space round it.
pub open spec fn document(c: Seq<char>) -> Result<Json, Seq<char>> {
    match value_at(c, skip_space(c, 0)) {
        Err(e) => Err(e),
        Ok((v, k)) => {
            let end = skip_space(c, k);
            if end == c.len() {
                Ok(v)
            } else {
                Err("trailing input at byte "@ + offset(c, end))
            }
        },
    }
}

// ---------------------------------------------------------------------------
// readings move forward
// ---------------------------------------------------------------------------
pub proof fn lemma_skip_space(c: Seq<char>, i: int)
    ensures
        i <= skip_space(c, i),
        0 <= i <= c.len() ==> skip_space(c, i) <= c.len(),
        peek(c, skip_space(c, i)) is Some ==> !json_space(c[skip_space(c, i)]),
    decreases c.len() - i,
{
    if 0 <= i < c.len() && json_space(c[i]) {
        lemma_skip_space(c, i + 1);
    }
}

/// A character of a string is read from inside the document.
pub proof fn lemma_string_char(c: Seq<char>, i: int)
    requires
        0 <= i < c.len(),
    ensures
        string_char(c, i) is Ok ==> i < string_char(c, i)->Ok_0.1 <= c.len(),
{
    if i + 2 <= c.len() {
        text::lemma_whole_chars(c, i + 2, 4);
        if i + 8 <= c.len() {
            text::lemma_whole_chars(c, i + 8, 4);
        }
    }
}

pub proof fn lemma_string_advances(c: Seq<char>, i: int)
    ensures
        string_tail(c, i) is Ok ==> i < string_tail(c, i)->Ok_0.1 <= c.len(),
    decreases c.len() - i,
{
    if 0 <= i < c.len() && c[i] != '"' {
        lemma_string_char(c, i);
        match string_char(c, i) {
            Err(_) => {},
            Ok((x, j)) => {
                lemma_string_advances(c, j);
            },
        }
    }
}

pub proof fn lemma_skip_digits(c: Seq<char>, i: int)
    ensures
        i <= skip_digits(c, i),
        0 <= i <= c.len() ==> skip_digits(c, i) <= c.len(),
        0 <= i ==> forall|j: int|
            i <= j < skip_digits(c, i) ==> super::float::is_digit(#[trigger] c[j]),
        peek(c, skip_digits(c, i)) is Some ==> !super::float::is_digit(c[skip_digits(c, i)]),
    decreases c.len() - i,
{
    if 0 <= i < c.len() && super::float::is_digit(c[i]) {
        lemma_skip_digits(c, i + 1);
    }
}

/// A number is at least one character long.
pub proof fn lemma_number_advances(c: Seq<char>, i: int)
    requires
        0 <= i < c.len(),
    ensures
        number_at(c, i) is Ok ==> i < number_at(c, i)->Ok_0.1 <= c.len(),
{
    let negative = peek(c, i) == Some('-');
    let a = if negative {
        i + 1
    } else {
        i
    };
    lemma_skip_digits(c, a);
    let b = skip_digits(c, a);
    lemma_skip_digits(c, b + 1);
    if fraction_end(c, b) is Ok {
        let f = fraction_end(c, b)->Ok_0;
        lemma_skip_digits(c, exponent_digits(c, f));
    }
}

/// A reading ends behind where it began, and inside the document.
pub proof fn lemma_value_advances(c: Seq<char>, i: int)
    requires
        0 <= i,
    ensures
        value_at(c, i) is Ok ==> i < value_at(c, i)->Ok_0.1 <= c.len(),
    decreases c.len() - i, 0nat,
{
    if i < c.len() {
        reveal_strlit("true");
        reveal_strlit("false");
        reveal_strlit("null");
        lemma_skip_space(c, i + 1);
        lemma_number_advances(c, i);
        lemma_string_advances(c, i + 1);
        lemma_items_advance(c, i + 1);
        lemma_members_advance(c, i + 1);
    }
}

pub proof fn lemma_items_advance(c: Seq<char>, i: int)
    requires
        0 <= i,
    ensures
        items_at(c, i) is Ok ==> i < items_at(c, i)->Ok_0.1 <= c.len(),
    decreases c.len() - i, 1nat,
{
    let j = skip_space(c, i);
    lemma_skip_space(c, i);
    lemma_value_advances(c, j);
    match value_at(c, j) {
        Err(_) => {},
        Ok((v, k)) => {
            let m = skip_space(c, k);
            lemma_skip_space(c, k);
            if peek(c, m) == Some(',') {
                lemma_items_advance(c, m + 1);
            }
        },
    }
}

pub proof fn lemma_members_advance(c: Seq<char>, i: int)
    requires
        0 <= i,
    ensures
        members_at(c, i) is Ok ==> i < members_at(c, i)->Ok_0.1 <= c.len(),
    decreases c.len() - i, 1nat,
{
    let j = skip_space(c, i);
    lemma_skip_space(c, i);
    lemma_string_advances(c, j + 1);
    match string_at(c, j) {
        Err(_) => {},
        Ok((key, k)) => {
            let m = skip_space(c, k);
            let n = skip_space(c, m + 1);
            lemma_skip_space(c, k);
            lemma_skip_space(c, m + 1);
            if peek(c, m) == Some(':') {
                lemma_value_advances(c, n);
                match value_at(c, n) {
                    Err(_) => {},
                    Ok((v, e)) => {
                        let p = skip_space(c, e);
                        lemma_skip_space(c, e);
                        if peek(c, p) == Some(',') {
                            lemma_members_advance(c, p + 1);
                        }
                    },
                }
            }
        },
    }
}

// ---------------------------------------------------------------------------
// reading
// ---------------------------------------------------------------------------
/// Whether what was read is what the grammar says.
pub open spec fn reads<T: View>(r: Result<(T, usize), String>, s: Reading<T::V>) -> bool {
    match (r, s) {
        (Ok((v, k)), Ok((w, e))) => v@ == w && k == e,
        (Err(m), Err(n)) => m@ == n,
        _ => false,
    }
}

/// The byte offset of character `i`.
fn byte_offset(c: &[char], i: usize) -> (r: u128)
    requires
        i <= c@.len(),
    ensures
        r == text::utf8_bytes(c@.take(i as int)),
{
    let mut n: u128 = 0;
    let mut k: usize = 0;
    while k < i
        invariant
            k <= i <= c@.len(),
            n == text::utf8_bytes(c@.take(k as int)),
            n <= 4 * k,
        decreases i - k,
    {
        n += char_width(c[k]) as u128;
        k += 1;
        assert(c@.take(k as int).drop_last() =~= c@.take(k - 1));
    }
    n
}

/// `message` followed by the byte offset of character `i`.
fn at_byte(message: &str, c: &[char], i: usize) -> (r: String)
    requires
        i <= c@.len(),
    ensures
        r@ == message@ + offset(c@, i as int),
{
    let mut out = String::new();
    push_text(&mut out, message);
    push_decimal(&mut out, byte_offset(c, i));
    assert(out@ =~= message@ + offset(c@, i as int));
    out
}

/// The first byte of a character's UTF-8 encoding, as a character.
fn lead_byte(c: char) -> (r: char)
    ensures
        r == lead(c),
{
    let u: u32 = c as u32;
    if u < 0x80 {
        c
    } else if u < 0x800 {
        (0xc0 + u / 0x40) as u8 as char
    } else if u < 0x10000 {
        (0xe0 + u / 0x1000) as u8 as char
    } else {
        (0xf0 + u / 0x40000) as u8 as char
    }
}

/// What is said where `wanted` is missing at `i`.
fn say_missing(c: &[char], i: usize, wanted: char) -> (r: String)
    requires
        i <= c@.len(),
    ensures
        r@ == missing(c@, i as int, wanted),
{
    let mut out = String::new();
    push_text(&mut out, "expected `");
    out.push(wanted);
    push_text(&mut out, "` at byte ");
    push_decimal(&mut out, byte_offset(c, i));
    push_text(&mut out, ", found ");
    if i < c.len() {
        out.push('`');
        out.push(lead_byte(c[i]));
        out.push('`');
    } else {
        push_text(&mut out, "end of input");
    }
    assert(out@ =~= missing(c@, i as int, wanted));
    out
}

/// The first position at or after `i` without JSON white space.
pub(crate) fn skip_ws(c: &[char], i: usize) -> (r: usize)
    requires
        i <= c@.len(),
    ensures
        r == skip_space(c@, i as int),
        i <= r <= c@.len(),
{
    let mut k: usize = i;
    while k < c.len() && (c[k] == ' ' || c[k] == '\t' || c[k] == '\n' || c[k] == '\r')
        invariant
            i <= k <= c@.len(),
            skip_space(c@, i as int) == skip_space(c@, k as int),
        decreases c.len() - k,
    {
        k += 1;
    }
    k
}

/// The value of a hexadecimal digit.
fn hex_digit_value(c: char) -> (r: Option<u32>)
    ensures
        match r {
            Some(d) => hex_value(c) == Some(d as nat) && d < 16,
            None => hex_value(c) is None,
        },
{
    if '0' <= c && c <= '9' {
        Some(c as u32 - 48)
    } else if 'a' <= c && c <= 'f' {
        Some(c as u32 - 87)
    } else if 'A' <= c && c <= 'F' {
        Some(c as u32 - 55)
    } else {
        None
    }
}

/// The four hexadecimal digits at `i`.
fn read_hex4(c: &[char], i: usize) -> (r: Result<u32, String>)
    requires
        i <= c@.len(),
    ensures
        match (r, hex4(c@, i as int)) {
            (Ok(n), Ok(m)) => n == m && n < 0x10000 && i + 4 <= c@.len(),
            (Err(e), Err(f)) => e@ == f,
            _ => false,
        },
{
    let mut k: usize = i;
    let mut room: usize = 4;
    proof {
        assert(c@.subrange(i as int, i as int) =~= Seq::<char>::empty());
    }
    while k < c.len() && char_width(c[k]) <= room
        invariant
            i <= k <= c@.len(),
            room <= 4,
            text::whole_chars(c@, i as int, 4) == k - i + text::whole_chars(c@, k as int, room as nat),
            text::utf8_bytes(c@.subrange(i as int, k as int)) == 4 - room,
        decreases c.len() - k,
    {
        assert(c@.subrange(i as int, k + 1).drop_last() =~= c@.subrange(i as int, k as int));
        room -= char_width(c[k]);
        k += 1;
    }
    let ghost s = c@.subrange(i as int, k as int);
    proof {
        assert(text::whole_chars(c@, k as int, room as nat) == 0);
        assert(c@.skip(i as int) =~= s + c@.skip(k as int));
        text::lemma_utf8_bytes_concat(s, c@.skip(k as int));
        if k < c@.len() {
            let first = seq![c@[k as int]];
            assert(c@.skip(k as int) =~= first + c@.skip(k + 1));
            text::lemma_utf8_bytes_concat(first, c@.skip(k + 1));
            assert(first.drop_last() =~= Seq::<char>::empty());
            assert(text::utf8_bytes(first.drop_last()) == 0);
        }
    }
    if room > 0 {
        if k == c.len() {
            assert(c@.skip(k as int) =~= Seq::<char>::empty());
            let mut out = String::new();
            push_text(&mut out, "truncated \\u escape");
            assert(out@ =~= "truncated \\u escape"@);
            return Err(out);
        }
        let mut out = String::new();
        push_text(
            &mut out,
            "invalid UTF-8 in \\u escape: incomplete utf-8 byte sequence from index ",
        );
        push_decimal(&mut out, (4 - room) as u128);
        return Err(out);
    }
    if k - i == 4 {
        if let Some(d0) = hex_digit_value(c[i]) {
            if let Some(d1) = hex_digit_value(c[i + 1]) {
                if let Some(d2) = hex_digit_value(c[i + 2]) {
                    if let Some(d3) = hex_digit_value(c[i + 3]) {
                        return Ok(d0 * 0x1000 + d1 * 0x100 + d2 * 0x10 + d3);
                    }
                }
            }
        }
    }
    let mut out = String::new();
    out.push('`');
    push_text(&mut out, chars_string(c, i, k).as_str());
    push_text(&mut out, "` is not four hex digits");
    assert(out@ =~= seq!['`'] + s + "` is not four hex digits"@);
    Err(out)
}

/// The character of a `\u` escape whose digits start at `i`.
fn read_unicode_escape(c: &[char], i: usize) -> (r: Result<(char, usize), String>)
    requires
        i <= c@.len(),
    ensures
        reads_char(r, unicode_escape(c@, i as int)),
{
    let n: usize = c.len();
    let hi: u32 = match read_hex4(c, i) {
        Ok(n) => n,
        Err(e) => return Err(e),
    };
    if 0xd800 <= hi && hi < 0xdc00 {
        if !(i + 4 < n && c[i + 4] == '\\' && i + 5 < n && c[i + 5] == 'u') {
            proof {
                if text::matches_at(c@, seq!['\\', 'u'], i + 4) {
                    let part = c@.subrange(i + 4, i + 6);
                    assert(part[0] == c@[i + 4] && part[1] == c@[i + 5]);
                }
            }
            return Err(at_byte("expected `\\u` at byte ", c, i + 4));
        }
        assert(c@.subrange(i + 4, i + 6) =~= seq!['\\', 'u']);
        let lo: u32 = match read_hex4(c, i + 6) {
            Ok(n) => n,
            Err(e) => return Err(e),
        };
        if !(0xdc00 <= lo && lo < 0xe000) {
            return Err(to_owned_text("a high surrogate not followed by a low one"));
        }
        let cp: u32 = 0x10000 + (hi - 0xd800) * 0x400 + (lo - 0xdc00);
        match char::from_u32(cp) {
            Some(x) => Ok((x, i + 10)),
            None => Err(to_owned_text("bad surrogate pair")),
        }
    } else {
        match char::from_u32(hi) {
            Some(x) => Ok((x, i + 4)),
            None => {
                let mut out = String::new();
                push_text(&mut out, "\\u");
                push_hex(&mut out, hi, 4);
                push_text(&mut out, " is not a character");
                assert(out@ =~= "\\u"@ + writer::hex(hi as nat, 4) + " is not a character"@);
                Err(out)
            },
        }
    }
}

/// Whether the character that was read is the one the grammar says.
pub open spec fn reads_char(r: Result<(char, usize), String>, s: Reading<char>) -> bool {
    match (r, s) {
        (Ok((x, k)), Ok((y, e))) => x == y && k == e,
        (Err(m), Err(n)) => m@ == n,
        _ => false,
    }
}

/// One character of a string, at `i`.
fn read_string_char(c: &[char], i: usize) -> (r: Result<(char, usize), String>)
    requires
        i < c@.len(),
    ensures
        reads_char(r, string_char(c@, i as int)),
{
    if c[i] != '\\' {
        if (c[i] as u32) < 0x20 {
            return Err(at_byte("a control character must be escaped, at byte ", c, i));
        }
        return Ok((c[i], i + 1));
    }
    if i + 1 >= c.len() {
        return Err(to_owned_text("unterminated escape"));
    }
    let e: char = c[i + 1];
    if e == '"' || e == '\\' || e == '/' {
        Ok((e, i + 2))
    } else if e == 'b' {
        Ok(('\u{8}', i + 2))
    } else if e == 'f' {
        Ok(('\u{c}', i + 2))
    } else if e == 'n' {
        Ok(('\n', i + 2))
    } else if e == 'r' {
        Ok(('\r', i + 2))
    } else if e == 't' {
        Ok(('\t', i + 2))
    } else if e == 'u' {
        read_unicode_escape(c, i + 2)
    } else {
        let mut out = String::new();
        push_text(&mut out, "unknown escape `\\");
        out.push(lead_byte(e));
        out.push('`');
        assert(out@ =~= "unknown escape `\\"@ + seq![lead(e), '`']);
        Err(out)
    }
}

/// A string at `i`.
pub(crate) fn read_string(c: &[char], i: usize) -> (r: Result<(String, usize), String>)
    requires
        i <= c@.len(),
    ensures
        reads(r, string_at(c@, i as int)),
        r is Ok ==> i < r->Ok_0.1 <= c@.len(),
{
    if i >= c.len() || c[i] != '"' {
        return Err(say_missing(c, i, '"'));
    }
    let mut out = String::new();
    let mut k: usize = i + 1;
    proof {
        lemma_put_nothing_first(string_tail(c@, k as int));
    }
    loop
        invariant
            i < k <= c@.len(),
            string_at(c@, i as int) == put_first(out@, string_tail(c@, k as int)),
        decreases c.len() - k,
    {
        if k >= c.len() {
            return Err(to_owned_text("unterminated string"));
        }
        if c[k] == '"' {
            assert(out@ + Seq::<char>::empty() =~= out@);
            return Ok((out, k + 1));
        }
        proof {
            lemma_string_char(c@, k as int);
        }
        match read_string_char(c, k) {
            Err(e) => {
                return Err(e);
            },
            Ok((x, j)) => {
                proof {
                    lemma_put_first_twice(out@, seq![x], string_tail(c@, j as int));
                    assert(out@ + seq![x] =~= out@.push(x));
                }
                out.push(x);
                k = j;
            },
        }
    }
}

proof fn lemma_put_nothing_first<T>(r: Reading<Seq<T>>)
    ensures
        put_first(seq![], r) == r,
{
    if let Ok((tail, end)) = r {
        assert(Seq::<T>::empty() + tail =~= tail);
    }
}

proof fn lemma_put_first_twice<T>(a: Seq<T>, b: Seq<T>, r: Reading<Seq<T>>)
    ensures
        put_first(a, put_first(b, r)) == put_first(a + b, r),
{
    if let Ok((tail, end)) = r {
        assert(a + (b + tail) =~= (a + b) + tail);
    }
}

/// The first position at or after `i` without a decimal digit.
fn read_digits(c: &[char], i: usize) -> (r: usize)
    requires
        i <= c@.len(),
    ensures
        r == skip_digits(c@, i as int),
        i <= r <= c@.len(),
{
    let mut k: usize = i;
    while k < c.len() && ('0' <= c[k] && c[k] <= '9')
        invariant
            i <= k <= c@.len(),
            skip_digits(c@, i as int) == skip_digits(c@, k as int),
        decreases c.len() - k,
    {
        k += 1;
    }
    k
}

proof fn lemma_digits_value_grows(s: Seq<char>, k: int)
    requires
        0 <= k <= s.len(),
    ensures
        digits_value(s.take(k)) <= digits_value(s),
    decreases s.len() - k,
{
    if k < s.len() {
        lemma_digits_value_grows(s, k + 1);
        assert(s.take(k + 1).drop_last() =~= s.take(k));
    } else {
        assert(s.take(k) =~= s);
    }
}

/// The number that the digits `c[a..b]` stand for, and `None` where it is larger than
/// every magnitude in `i128`.
fn read_magnitude(c: &[char], a: usize, b: usize) -> (r: Option<u128>)
    requires
        a <= b <= c@.len(),
        super::float::all_digits(c@.subrange(a as int, b as int)),
    ensures
        match r {
            Some(n) => n == digits_value(c@.subrange(a as int, b as int)),
            None => digits_value(c@.subrange(a as int, b as int))
                > 0x8000_0000_0000_0000_0000_0000_0000_0000int,
        },
{
    let ghost s = c@.subrange(a as int, b as int);
    let mut n: u128 = 0;
    let mut k: usize = a;
    while k < b
        invariant
            a <= k <= b <= c@.len(),
            s == c@.subrange(a as int, b as int),
            super::float::all_digits(s),
            n == digits_value(s.take(k - a)),
        decreases b - k,
    {
        assert(s[k - a] == c@[k as int]);
        assert(s.take(k - a + 1).drop_last() =~= s.take(k - a));
        if n > (u128::MAX - 9) / 10 {
            proof {
                lemma_digits_value_grows(s, k - a + 1);
            }
            return None;
        }
        n = n * 10 + (c[k] as u32 - 48) as u128;
        k += 1;
    }
    assert(s.take(b - a) =~= s);
    Some(n)
}

pub(crate) proof fn lemma_leading_zeros(s: Seq<char>, k: int)
    requires
        0 <= k <= s.len(),
        forall|j: int| 0 <= j < k ==> s[j] == '0',
        k < s.len() ==> s[k] != '0',
    ensures
        leading_zeros(s) == k,
    decreases k,
{
    if k > 0 {
        lemma_leading_zeros(s.skip(1), k - 1);
    }
}

/// `0.<digits> * 10^point` in its shortest form.
fn normal_decimal(negative: bool, digits: &Vec<char>, point: i128) -> (r: Decimal)
    requires
        -0x1_0000_0000_0000_0000_0000_0000_0000 <= point <= 0x1_0000_0000_0000_0000_0000_0000_0000,
    ensures
        Float::Finite(r)@ == normal_form(negative, digits@, point as int),
{
    let n: usize = digits.len();
    let mut k: usize = 0;
    while k < n && digits[k] == '0'
        invariant
            k <= n == digits@.len(),
            forall|j: int| 0 <= j < k ==> digits@[j] == '0',
        decreases n - k,
    {
        k += 1;
    }
    proof {
        lemma_leading_zeros(digits@, k as int);
    }
    let mut out: Vec<char> = Vec::new();
    if k == n {
        out.push('0');
        assert(out@ =~= seq!['0']);
        return Decimal { negative, digits: out, exponent: 0 };
    }
    let ghost rest = digits@.skip(k as int);
    let mut end: usize = n;
    assert(digits@.subrange(k as int, end as int) =~= rest);
    while end > k && digits[end - 1] == '0'
        invariant
            k <= end <= n == digits@.len(),
            without_trailing_zeros(digits@.subrange(k as int, end as int))
                == without_trailing_zeros(rest),
        decreases end,
    {
        assert(digits@.subrange(k as int, end as int).drop_last() =~= digits@.subrange(
            k as int,
            end - 1,
        ));
        end -= 1;
    }
    let mut i: usize = k;
    while i < end
        invariant
            k <= i <= end <= digits@.len(),
            out@ == digits@.subrange(k as int, i as int),
        decreases end - i,
    {
        out.push(digits[i]);
        i += 1;
        assert(out@ =~= digits@.subrange(k as int, i as int));
    }
    let e: i128 = point - k as i128 - 1;
    let exponent: i32 = if e < i32::MIN as i128 {
        i32::MIN
    } else if e > i32::MAX as i128 {
        i32::MAX
    } else {
        e as i32
    };
    Decimal { negative, digits: out, exponent }
}

/// Whether what was read is what the grammar says.
spec fn reads_end(r: Result<usize, String>, s: Result<int, Seq<char>>) -> bool {
    match (r, s) {
        (Ok(k), Ok(e)) => k == e,
        (Err(m), Err(n)) => m@ == n,
        _ => false,
    }
}

/// The end of a fraction that may start at `i`.
fn read_fraction(c: &[char], i: usize) -> (r: Result<usize, String>)
    requires
        i <= c@.len(),
    ensures
        reads_end(r, fraction_end(c@, i as int)),
        r is Ok ==> i <= r->Ok_0 <= c@.len(),
{
    if i < c.len() && c[i] == '.' {
        let end: usize = read_digits(c, i + 1);
        if end == i + 1 {
            return Err(at_byte("a `.` must be followed by a digit, at byte ", c, i + 1));
        }
        Ok(end)
    } else {
        Ok(i)
    }
}

/// Where the digits of the exponent that starts at `i` start.
fn read_exponent_digits(c: &[char], i: usize) -> (r: usize)
    requires
        has_exponent(c@, i as int),
    ensures
        r == exponent_digits(c@, i as int),
        i < r <= c@.len(),
{
    let n: usize = c.len();
    if i + 1 < n && (c[i + 1] == '+' || c[i + 1] == '-') {
        i + 2
    } else {
        i + 1
    }
}

/// The end of an exponent that may start at `i`.
fn read_exponent(c: &[char], i: usize) -> (r: Result<usize, String>)
    requires
        i <= c@.len(),
    ensures
        reads_end(r, exponent_end(c@, i as int)),
        r is Ok ==> i <= r->Ok_0 <= c@.len(),
{
    if i < c.len() && (c[i] == 'e' || c[i] == 'E') {
        let d: usize = read_exponent_digits(c, i);
        let end: usize = read_digits(c, d);
        if end == d {
            return Err(at_byte("an exponent must have digits, at byte ", c, d));
        }
        Ok(end)
    } else {
        Ok(i)
    }
}

/// The value of the exponent that stands in `i..end`, no further from zero than what no
/// float reaches.
fn read_exponent_value(c: &[char], i: usize, end: usize) -> (r: i128)
    requires
        i <= end <= c@.len(),
        exponent_end(c@, i as int) == Ok::<int, Seq<char>>(end as int),
    ensures
        ({
            let e = exponent_value(c@, i as int, end as int);
            let cap = 0xffff_ffff_ffff_ffff_ffff_ffffint;
            r == if e > cap {
                cap
            } else if e < -cap {
                -cap
            } else {
                e
            }
        }),
{
    if i < c.len() && (c[i] == 'e' || c[i] == 'E') {
        let d: usize = read_exponent_digits(c, i);
        proof {
            lemma_skip_digits(c@, d as int);
        }
        let cap: u128 = 0xffff_ffff_ffff_ffff_ffff_ffff;
        let n: u128 = match read_magnitude(c, d, end) {
            Some(m) => if m > cap {
                cap
            } else {
                m
            },
            None => cap,
        };
        if c[i + 1] == '-' {
            -(n as i128)
        } else {
            n as i128
        }
    } else {
        0
    }
}

/// A literal between backquotes, followed by `message`.
fn say_literal(c: &[char], from: usize, to: usize, message: &str) -> (r: String)
    requires
        from <= to <= c@.len(),
    ensures
        r@ == seq!['`'] + c@.subrange(from as int, to as int) + message@,
{
    let mut out = String::new();
    out.push('`');
    push_text(&mut out, chars_string(c, from, to).as_str());
    push_text(&mut out, message);
    assert(out@ =~= seq!['`'] + c@.subrange(from as int, to as int) + message@);
    out
}

/// A number whose first character stands at `i`.
fn read_number(c: &[char], i: usize) -> (r: Result<(Value, usize), String>)
    requires
        i < c@.len(),
    ensures
        reads(r, number_at(c@, i as int)),
{
    let negative: bool = c[i] == '-';
    let a: usize = if negative {
        i + 1
    } else {
        i
    };
    let b: usize = read_digits(c, a);
    proof {
        lemma_skip_digits(c@, a as int);
    }
    // JSON, like Python, forbids `01` and a bare `1.`.
    if b - a > 1 && c[a] == '0' {
        return Err(at_byte("a number may not have a leading zero, at byte ", c, a));
    }
    let f: usize = match read_fraction(c, b) {
        Ok(f) => f,
        Err(e) => return Err(e),
    };
    let end: usize = match read_exponent(c, f) {
        Ok(end) => end,
        Err(e) => return Err(e),
    };
    if end == b {
        if a == b {
            return Err(say_literal(c, i, end, "` is not a number"));
        }
        let magnitude: Option<u128> = read_magnitude(c, a, b);
        let limit: u128 = 0x8000_0000_0000_0000_0000_0000_0000_0000;
        if let Some(n) = magnitude {
            if negative && n == limit {
                return Ok((Value::Int(i128::MIN), end));
            }
            if n < limit {
                let m: i128 = n as i128;
                return Ok(
                    (
                        Value::Int(
                            if negative {
                                -m
                            } else {
                                m
                            },
                        ),
                        end,
                    ),
                );
            }
        }
        let mut out = say_literal(c, i, end, "` is not an i128: ");
        if negative {
            push_text(&mut out, "number too small to fit in target type");
        } else {
            push_text(&mut out, "number too large to fit in target type");
        }
        return Err(out);
    }
    if a == b {
        return Err(say_literal(c, i, end, "` is not a float: invalid float literal"));
    }
    let d: Decimal = read_float(c, negative, a, b, f, end);
    Ok((Value::Float(Float::Finite(d)), end))
}

proof fn lemma_leading_zeros_bound(s: Seq<char>)
    ensures
        leading_zeros(s) <= s.len(),
    decreases s.len(),
{
    if s.len() > 0 && s[0] == '0' {
        lemma_leading_zeros_bound(s.skip(1));
    }
}

/// The float with integer digits `c[a..b]`, a fraction in `b..f` and an exponent in
/// `f..end`.
fn read_float(c: &[char], negative: bool, a: usize, b: usize, f: usize, end: usize) -> (r: Decimal)
    requires
        a <= b <= f <= end <= c@.len(),
        exponent_end(c@, f as int) == Ok::<int, Seq<char>>(end as int),
    ensures
        Float::Finite(r)@ == normal_form(
            negative,
            c@.subrange(a as int, b as int) + fraction_digits(c@, b as int, f as int),
            b - a + exponent_value(c@, f as int, end as int),
        ),
{
    let n: usize = c.len();
    let mut digits: Vec<char> = Vec::new();
    push_slice(&mut digits, c, a, b);
    if f > b {
        push_slice(&mut digits, c, b + 1, f);
    }
    assert(digits@ =~= c@.subrange(a as int, b as int) + fraction_digits(c@, b as int, f as int));
    let e: i128 = read_exponent_value(c, f, end);
    proof {
        lemma_leading_zeros_bound(digits@);
    }
    normal_decimal(negative, &digits, (b - a) as i128 + e)
}

/// Appends `c[from..to]`.
fn push_slice(out: &mut Vec<char>, c: &[char], from: usize, to: usize)
    requires
        from <= to <= c@.len(),
    ensures
        final(out)@ == old(out)@ + c@.subrange(from as int, to as int),
{
    let mut i: usize = from;
    while i < to
        invariant
            from <= i <= to <= c@.len(),
            out@ == old(out)@ + c@.subrange(from as int, i as int),
        decreases to - i,
    {
        out.push(c[i]);
        i += 1;
        assert(out@ =~= old(out)@ + c@.subrange(from as int, i as int));
    }
}

/// The word `word` at `i`.
fn read_word(c: &[char], i: usize, word: &str, v: Value) -> (r: Result<(Value, usize), String>)
    requires
        i <= c@.len(),
    ensures
        reads(r, word_at(c@, i as int, word@, v@)),
{
    let w = str_chars(word);
    if stands_at(c, &w, i) {
        let n: usize = c.len();
        Ok((v, i + w.len()))
    } else {
        let mut out = String::new();
        push_text(&mut out, "expected `");
        push_text(&mut out, word);
        push_text(&mut out, "` at byte ");
        push_decimal(&mut out, byte_offset(c, i));
        assert(out@ =~= "expected `"@ + word@ + "` at byte "@ + offset(c@, i as int));
        Err(out)
    }
}

/// A value at `i`.
pub(crate) fn read_value(c: &[char], i: usize) -> (r: Result<(Value, usize), String>)
    requires
        i <= c@.len(),
    ensures
        reads(r, value_at(c@, i as int)),
    decreases c@.len() - i, 0nat,
{
    if i >= c.len() {
        return Err(to_owned_text("unexpected end of input"));
    }
    let x: char = c[i];
    if x == '{' {
        let j: usize = skip_ws(c, i + 1);
        if j < c.len() && c[j] == '}' {
            let kv: Vec<(String, Value)> = Vec::new();
            proof {
                value::lemma_object_view(kv);
                assert(value::json_members(kv@) =~= seq![]);
            }
            return Ok((Value::Object(kv), j + 1));
        }
        match read_members(c, i + 1) {
            Err(e) => Err(e),
            Ok((kv, end)) => {
                proof {
                    value::lemma_object_view(kv);
                }
                Ok((Value::Object(kv), end))
            },
        }
    } else if x == '[' {
        let j: usize = skip_ws(c, i + 1);
        if j < c.len() && c[j] == ']' {
            let a: Vec<Value> = Vec::new();
            proof {
                value::lemma_array_view(a);
                assert(value::json_items(a@) =~= seq![]);
            }
            return Ok((Value::Array(a), j + 1));
        }
        match read_items(c, i + 1) {
            Err(e) => Err(e),
            Ok((a, end)) => {
                proof {
                    value::lemma_array_view(a);
                }
                Ok((Value::Array(a), end))
            },
        }
    } else if x == '"' {
        match read_string(c, i) {
            Err(e) => Err(e),
            Ok((s, end)) => Ok((Value::Str(s), end)),
        }
    } else if x == 't' {
        read_word(c, i, "true", Value::Bool(true))
    } else if x == 'f' {
        read_word(c, i, "false", Value::Bool(false))
    } else if x == 'n' {
        read_word(c, i, "null", Value::Null)
    } else if x == '-' || ('0' <= x && x <= '9') {
        read_number(c, i)
    } else {
        let mut out = String::new();
        push_text(&mut out, "unexpected `");
        out.push(lead_byte(x));
        push_text(&mut out, "` at byte ");
        push_decimal(&mut out, byte_offset(c, i));
        assert(out@ =~= "unexpected `"@ + seq![lead(x)] + "` at byte "@ + offset(c@, i as int));
        Err(out)
    }
}

/// The elements of an array from `i` on, and its closing bracket.
fn read_items(c: &[char], i: usize) -> (r: Result<(Vec<Value>, usize), String>)
    requires
        i <= c@.len(),
    ensures
        match (r, items_at(c@, i as int)) {
            (Ok((a, k)), Ok((s, e))) => value::json_items(a@) == s && k == e,
            (Err(m), Err(n)) => m@ == n,
            _ => false,
        },
    decreases c@.len() - i, 1nat,
{
    let mut a: Vec<Value> = Vec::new();
    let mut k: usize = i;
    proof {
        assert(value::json_items(a@) =~= seq![]);
        lemma_put_nothing_first(items_at(c@, i as int));
    }
    loop
        invariant
            i <= k <= c@.len(),
            items_at(c@, i as int) == put_first(
                value::json_items(a@),
                items_at(c@, k as int),
            ),
        decreases c@.len() - k,
    {
        let j: usize = skip_ws(c, k);
        proof {
            lemma_value_advances(c@, j as int);
        }
        let (v, e): (Value, usize) = match read_value(c, j) {
            Err(e) => {
                return Err(e);
            },
            Ok(read) => read,
        };
        let m: usize = skip_ws(c, e);
        let ghost before = value::json_items(a@);
        let ghost item = v@;
        a.push(v);
        proof {
            assert(value::json_items(a@) =~= before + seq![item]);
        }
        if m < c.len() && c[m] == ',' {
            proof {
                lemma_put_first_twice(before, seq![item], items_at(c@, m + 1));
            }
            k = m + 1;
        } else if m < c.len() && c[m] == ']' {
            return Ok((a, m + 1));
        } else {
            return Err(at_byte("expected `,` or `]` at byte ", c, m));
        }
    }
}

/// The members of an object from `i` on, and its closing brace.
fn read_members(c: &[char], i: usize) -> (r: Result<(Vec<(String, Value)>, usize), String>)
    requires
        i <= c@.len(),
    ensures
        match (r, members_at(c@, i as int)) {
            (Ok((kv, k)), Ok((s, e))) => value::json_members(kv@) == s && k == e,
            (Err(m), Err(n)) => m@ == n,
            _ => false,
        },
    decreases c@.len() - i, 1nat,
{
    let mut kv: Vec<(String, Value)> = Vec::new();
    let mut k: usize = i;
    proof {
        assert(value::json_members(kv@) =~= seq![]);
        lemma_put_nothing_first(members_at(c@, i as int));
    }
    loop
        invariant
            i <= k <= c@.len(),
            members_at(c@, i as int) == put_first(
                value::json_members(kv@),
                members_at(c@, k as int),
            ),
        decreases c@.len() - k,
    {
        let j: usize = skip_ws(c, k);
        let (key, s): (String, usize) = match read_string(c, j) {
            Err(e) => {
                return Err(e);
            },
            Ok(read) => read,
        };
        let m: usize = skip_ws(c, s);
        if m >= c.len() || c[m] != ':' {
            return Err(say_missing(c, m, ':'));
        }
        let n: usize = skip_ws(c, m + 1);
        proof {
            lemma_value_advances(c@, n as int);
        }
        let (v, e): (Value, usize) = match read_value(c, n) {
            Err(e) => {
                return Err(e);
            },
            Ok(read) => read,
        };
        let p: usize = skip_ws(c, e);
        let ghost before = value::json_members(kv@);
        let ghost item = (key@, v@);
        kv.push((key, v));
        proof {
            assert(value::json_members(kv@) =~= before + seq![item]);
        }
        if p < c.len() && c[p] == ',' {
            proof {
                lemma_put_first_twice(before, seq![item], members_at(c@, p + 1));
            }
            k = p + 1;
        } else if p < c.len() && c[p] == '}' {
            return Ok((kv, p + 1));
        } else {
            return Err(at_byte("expected `,` or `}` at byte ", c, p));
        }
    }
}

/// The document in some text, with its numbers as they are written: a float is the exact
/// decimal of its numeral, whether or not a double can hold it. Rounding comes after this.
pub fn parse_exact(src: &str) -> (r: Result<Value, String>)
    ensures
        match (r, document(src@)) {
            (Ok(v), Ok(j)) => v@ == j,
            (Err(m), Err(n)) => m@ == n,
            _ => false,
        },
{
    let chars = str_chars(src);
    let c: &[char] = chars.as_slice();
    let start: usize = skip_ws(c, 0);
    proof {
        lemma_value_advances(c@, start as int);
    }
    match read_value(c, start) {
        Err(e) => Err(e),
        Ok((v, k)) => {
            let end: usize = skip_ws(c, k);
            if end == c.len() {
                Ok(v)
            } else {
                Err(at_byte("trailing input at byte ", c, end))
            }
        },
    }
}

} // verus!
